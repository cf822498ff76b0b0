use vstd::arithmetic::div_mod::lemma_fundamental_div_mod_converse;
use vstd::prelude::*;

verus! {

/// Byte offset of pixel `(x, y)` in a 4-byte-per-pixel image `width` pixels wide.
pub open spec fn pixel_offset(width: int, x: int, y: int) -> int {
    (y * width + x) * 4
}

/// Row of the pixel that byte `i` belongs to.
pub open spec fn pixel_row(i: int, width: int) -> int {
    (i / 4) / width
}

/// Column of the pixel that byte `i` belongs to.
pub open spec fn pixel_col(i: int, width: int) -> int {
    (i / 4) % width
}

/// Channel `c` of the opaque RGBA pixel made from the BGRA source pixel at
/// `(x, y)`: red and blue swap and alpha becomes 255.
pub open spec fn swizzled(source: Seq<u8>, source_width: int, x: int, y: int, c: int) -> u8 {
    let base = pixel_offset(source_width, x, y);
    if c == 0 {
        source[base + 2]
    } else if c == 1 {
        source[base + 1]
    } else if c == 2 {
        source[base]
    } else {
        255u8
    }
}

/// A byte index decomposes into the pixel's row, column and channel.
pub proof fn lemma_pixel_index(width: int, x: int, y: int, c: int)
    requires
        width > 0,
        0 <= x < width,
        0 <= y,
        0 <= c < 4,
    ensures
        pixel_col(pixel_offset(width, x, y) + c, width) == x,
        pixel_row(pixel_offset(width, x, y) + c, width) == y,
        (pixel_offset(width, x, y) + c) % 4 == c,
        pixel_offset(width, x, y) >= 0,
{
    let p = y * width + x;
    assert(p >= 0) by (nonlinear_arith)
        requires
            y >= 0,
            width > 0,
            x >= 0,
            p == y * width + x,
    ;
    lemma_fundamental_div_mod_converse(p * 4 + c, 4, p, c);
    lemma_fundamental_div_mod_converse(p, width, y, x);
}

/// Bytes of a pixel with a different position never coincide.
pub proof fn lemma_pixel_offset_bound(width: int, x: int, y: int, height: int)
    requires
        width > 0,
        0 <= x < width,
        0 <= y < height,
    ensures
        pixel_offset(width, x, y) + 4 <= width * height * 4,
{
    assert((y * width + x) * 4 + 4 <= width * height * 4) by (nonlinear_arith)
        requires
            width > 0,
            0 <= x < width,
            0 <= y < height,
    ;
}

/// Copies one BGRA source pixel to an RGBA output pixel with full alpha.
pub fn copy_pixel(
    source: &[u8],
    source_width: u32,
    source_x: u32,
    source_y: u32,
    output: &mut [u8],
    output_width: u32,
    target_x: u32,
    target_y: u32,
)
    requires
        pixel_offset(source_width as int, source_x as int, source_y as int) + 3 <= source.len(),
        pixel_offset(output_width as int, target_x as int, target_y as int) + 4 <= old(
            output,
        ).len(),
    ensures
        final(output)@.len() == old(output)@.len(),
        forall|i: int|
            0 <= i < old(output)@.len() ==> #[trigger] final(output)@[i] == if pixel_offset(
                output_width as int,
                target_x as int,
                target_y as int,
            ) <= i < pixel_offset(output_width as int, target_x as int, target_y as int) + 4 {
                swizzled(
                    source@,
                    source_width as int,
                    source_x as int,
                    source_y as int,
                    i - pixel_offset(output_width as int, target_x as int, target_y as int),
                )
            } else {
                old(output)@[i]
            },
{
    let ghost so = pixel_offset(source_width as int, source_x as int, source_y as int);
    let ghost to = pixel_offset(output_width as int, target_x as int, target_y as int);
    proof {
        assert(so >= 0 && to >= 0) by (nonlinear_arith)
            requires
                so == (source_y * source_width + source_x) * 4,
                to == (target_y * output_width + target_x) * 4,
        ;
    }
    let source_offset = ((source_y as usize) * (source_width as usize) + (source_x as usize)) * 4;
    let target_offset = ((target_y as usize) * (output_width as usize) + (target_x as usize)) * 4;
    output[target_offset] = source[source_offset + 2];
    output[target_offset + 1] = source[source_offset + 1];
    output[target_offset + 2] = source[source_offset];
    output[target_offset + 3] = 255;
}

/// Every byte index is its pixel's offset plus its channel.
pub proof fn lemma_pixel_decompose(i: int, width: int)
    requires
        i >= 0,
        width > 0,
    ensures
        i == pixel_offset(width, pixel_col(i, width), pixel_row(i, width)) + i % 4,
        0 <= i % 4 < 4,
        0 <= pixel_col(i, width) < width,
        0 <= pixel_row(i, width),
{
    let p = i / 4;
    vstd::arithmetic::div_mod::lemma_fundamental_div_mod(i, 4);
    vstd::arithmetic::div_mod::lemma_fundamental_div_mod(p, width);
    vstd::arithmetic::div_mod::lemma_mod_bound(i, 4);
    vstd::arithmetic::div_mod::lemma_mod_bound(p, width);
    assert(p >= 0);
    vstd::arithmetic::div_mod::lemma_div_pos_is_pos(p, width);
    let row = p / width;
    let col = p % width;
    assert(i == (row * width + col) * 4 + i % 4) by (nonlinear_arith)
        requires
            i == 4 * p + i % 4,
            p == width * row + col,
    ;
}

/// Byte `i` lies in pixel `(x, y)` exactly when its row and column are `y` and `x`.
pub proof fn lemma_pixel_membership(i: int, width: int, x: int, y: int)
    requires
        i >= 0,
        width > 0,
        0 <= x < width,
        0 <= y,
    ensures
        (pixel_offset(width, x, y) <= i < pixel_offset(width, x, y) + 4) <==> (pixel_col(i, width)
            == x && pixel_row(i, width) == y),
        pixel_offset(width, x, y) <= i < pixel_offset(width, x, y) + 4 ==> i % 4 == i
            - pixel_offset(width, x, y),
{
    lemma_pixel_decompose(i, width);
    if pixel_offset(width, x, y) <= i < pixel_offset(width, x, y) + 4 {
        lemma_pixel_index(width, x, y, i - pixel_offset(width, x, y));
    }
}

/// A rectangle `(x, y, width, height)` in pixels.
pub type PixelRect = (u32, u32, u32, u32);

/// Byte `i` of an image `width` pixels wide lies in `rect`, counting whole rows
/// of the rectangle up to `rows` and the first `cols` pixels of row `rows`.
pub open spec fn in_region(i: int, width: int, rect: PixelRect, rows: int, cols: int) -> bool {
    let col = pixel_col(i, width);
    let row = pixel_row(i, width);
    &&& rect.0 <= col < rect.0 + rect.2
    &&& (rect.1 <= row < rect.1 + rows || (row == rect.1 + rows && col < rect.0 + cols))
}

/// The byte that scaling `src` of the source onto `dst` of the output writes at
/// output byte `i`: nearest-neighbour sampling with truncating division.
pub open spec fn scaled_byte(
    source: Seq<u8>,
    source_width: int,
    src: PixelRect,
    output_width: int,
    dst: PixelRect,
    i: int,
) -> u8 {
    let x = pixel_col(i, output_width) - dst.0;
    let y = pixel_row(i, output_width) - dst.1;
    swizzled(
        source,
        source_width,
        src.0 + x * (src.2 as int) / (dst.2 as int),
        src.1 + y * (src.3 as int) / (dst.3 as int),
        i % 4,
    )
}

/// The last source coordinate that scaling `span` pixels from `start` onto
/// `total` pixels samples.
pub open spec fn last_sample(start: int, span: int, total: int) -> int {
    start + (total - 1) * span / total
}

/// Scaling `src` onto `dst` stays inside both images: the last sampled source
/// pixel (the one with the largest offset) has its three colour bytes, the
/// last target pixel has its four bytes, target rows do not run past the
/// output's width (else pixels of two target rows would coincide), and the
/// 32-bit coordinate arithmetic does not overflow.
pub open spec fn scale_fits(
    source_len: int,
    source_width: int,
    src: PixelRect,
    output_len: int,
    output_width: int,
    dst: PixelRect,
) -> bool {
    dst.2 > 0 && dst.3 > 0 ==> {
        &&& pixel_offset(
            source_width,
            last_sample(src.0 as int, src.2 as int, dst.2 as int),
            last_sample(src.1 as int, src.3 as int, dst.3 as int),
        ) + 3 <= source_len
        &&& dst.0 + dst.2 <= output_width
        &&& pixel_offset(output_width, dst.0 + dst.2 - 1, dst.1 + dst.3 - 1) + 4 <= output_len
        &&& (dst.2 - 1) * src.2 <= u32::MAX
        &&& (dst.3 - 1) * src.3 <= u32::MAX
        &&& last_sample(src.0 as int, src.2 as int, dst.2 as int) <= u32::MAX
        &&& last_sample(src.1 as int, src.3 as int, dst.3 as int) <= u32::MAX
        &&& dst.1 + dst.3 - 1 <= u32::MAX
    }
}

proof fn lemma_sample_bound(start: int, span: int, t: int, total: int)
    requires
        0 <= t < total,
        span >= 0,
        start >= 0,
    ensures
        0 <= t * span <= (total - 1) * span,
        start <= start + t * span / total <= last_sample(start, span, total),
{
    assert(0 <= t * span <= (total - 1) * span) by (nonlinear_arith)
        requires
            0 <= t < total,
            span >= 0,
    ;
    vstd::arithmetic::div_mod::lemma_div_is_ordered(t * span, (total - 1) * span, total);
    vstd::arithmetic::div_mod::lemma_div_pos_is_pos(t * span, total);
}

proof fn lemma_offset_monotone(width: int, x: int, y: int, mx: int, my: int)
    requires
        width >= 0,
        0 <= x <= mx,
        0 <= y <= my,
    ensures
        0 <= pixel_offset(width, x, y) <= pixel_offset(width, mx, my),
{
    assert(0 <= (y * width + x) * 4 <= (my * width + mx) * 4) by (nonlinear_arith)
        requires
            width >= 0,
            0 <= x <= mx,
            0 <= y <= my,
    ;
}

/// Scales the source rectangle `src` onto the output rectangle `dst`,
/// converting BGRA to opaque RGBA and leaving the rest of the output as it was.
pub fn copy_scaled(
    source: &[u8],
    source_width: u32,
    source_height: u32,
    src: PixelRect,
    output: &mut [u8],
    output_width: u32,
    output_height: u32,
    dst: PixelRect,
)
    requires
        scale_fits(
            source@.len() as int,
            source_width as int,
            src,
            old(output)@.len() as int,
            output_width as int,
            dst,
        ),
    ensures
        final(output)@.len() == old(output)@.len(),
        forall|i: int|
            0 <= i < old(output)@.len() ==> #[trigger] final(output)@[i] == if dst.2 > 0
                && in_region(i, output_width as int, dst, dst.3 as int, 0) {
                scaled_byte(source@, source_width as int, src, output_width as int, dst, i)
            } else {
                old(output)@[i]
            },
{
    let (source_x, source_y, source_rect_width, source_rect_height) = src;
    let (target_x, target_y, target_width, target_height) = dst;
    let ghost ow = output_width as int;
    let ghost initial = output@;
    if target_width == 0 || target_height == 0 {
        return;
    }
    let ghost last_x = last_sample(source_x as int, source_rect_width as int, target_width as int);
    let ghost last_y = last_sample(source_y as int, source_rect_height as int, target_height as int);
    let mut y: u32 = 0;
    while y < target_height
        invariant
            0 < target_width,
            0 < target_height,
            y <= target_height,
            (source_x, source_y, source_rect_width, source_rect_height) == src,
            (target_x, target_y, target_width, target_height) == dst,
            ow == output_width,
            last_x == last_sample(source_x as int, source_rect_width as int, target_width as int),
            last_y == last_sample(source_y as int, source_rect_height as int, target_height as int),
            scale_fits(
                source@.len() as int,
                source_width as int,
                src,
                initial.len() as int,
                ow,
                dst,
            ),
            output@.len() == initial.len(),
            forall|i: int|
                0 <= i < initial.len() ==> #[trigger] output@[i] == if in_region(
                    i,
                    ow,
                    dst,
                    y as int,
                    0,
                ) {
                    scaled_byte(source@, source_width as int, src, ow, dst, i)
                } else {
                    initial[i]
                },
        decreases target_height - y,
    {
        proof {
            lemma_sample_bound(
                source_y as int,
                source_rect_height as int,
                y as int,
                target_height as int,
            );
        }
        let sy = source_y + y * source_rect_height / target_height;
        let mut x: u32 = 0;
        while x < target_width
            invariant
                0 < target_width,
                0 < target_height,
                y < target_height,
                x <= target_width,
                (source_x, source_y, source_rect_width, source_rect_height) == src,
                (target_x, target_y, target_width, target_height) == dst,
                ow == output_width,
                last_x == last_sample(source_x as int, source_rect_width as int, target_width as int),
                last_y == last_sample(
                    source_y as int,
                    source_rect_height as int,
                    target_height as int,
                ),
                sy == source_y + (y as int) * (source_rect_height as int) / (target_height as int),
                source_y <= sy <= last_y,
                scale_fits(
                    source@.len() as int,
                    source_width as int,
                    src,
                    initial.len() as int,
                    ow,
                    dst,
                ),
                output@.len() == initial.len(),
                forall|i: int|
                    0 <= i < initial.len() ==> #[trigger] output@[i] == if in_region(
                        i,
                        ow,
                        dst,
                        y as int,
                        x as int,
                    ) {
                        scaled_byte(source@, source_width as int, src, ow, dst, i)
                    } else {
                        initial[i]
                    },
            decreases target_width - x,
        {
            proof {
                lemma_sample_bound(
                    source_x as int,
                    source_rect_width as int,
                    x as int,
                    target_width as int,
                );
            }
            let sx = source_x + x * source_rect_width / target_width;
            let ghost tx = (target_x + x) as int;
            let ghost ty = (target_y + y) as int;
            proof {
                lemma_offset_monotone(source_width as int, sx as int, sy as int, last_x, last_y);
                lemma_offset_monotone(
                    ow,
                    tx,
                    ty,
                    target_x + target_width - 1,
                    target_y + target_height - 1,
                );
            }
            let ghost before = output@;
            copy_pixel(source, source_width, sx, sy, output, output_width, target_x + x, target_y + y);
            proof {
                assert forall|i: int| 0 <= i < initial.len() implies #[trigger] output@[i] == if in_region(
                    i,
                    ow,
                    dst,
                    y as int,
                    x + 1,
                ) {
                    scaled_byte(source@, source_width as int, src, ow, dst, i)
                } else {
                    initial[i]
                } by {
                    lemma_pixel_membership(i, ow, tx, ty);
                    if pixel_col(i, ow) == tx && pixel_row(i, ow) == ty {
                        assert(pixel_col(i, ow) - target_x == x);
                        assert(pixel_row(i, ow) - target_y == y);
                    }
                }
            }
            x = x + 1;
        }
        proof {
            assert forall|i: int| 0 <= i < initial.len() implies #[trigger] output@[i] == if in_region(
                i,
                ow,
                dst,
                y + 1,
                0,
            ) {
                scaled_byte(source@, source_width as int, src, ow, dst, i)
            } else {
                initial[i]
            } by {
                assert(in_region(i, ow, dst, y as int, target_width as int) == in_region(
                    i,
                    ow,
                    dst,
                    y + 1,
                    0,
                ));
            }
        }
        y = y + 1;
    }
}

/// How a decoded frame is laid onto a stream frame.
#[derive(Clone, Copy, Debug, PartialEq, Eq)]
pub enum StreamLayout {
    /// Scale the source rectangle onto the target rectangle.
    Scaled { source: PixelRect, target: PixelRect },
    /// Repeat the source from the top-left corner.
    Tile,
}

impl StreamLayout {
    /// A frame stretched over an output of its own size.
    pub open spec fn stretch_spec(width: u32, height: u32) -> StreamLayout {
        StreamLayout::Scaled { source: (0u32, 0u32, width, height), target: (0u32, 0u32, width, height) }
    }

    /// The whole source stretched over the whole output.
    pub fn stretch(source_width: u32, source_height: u32, width: u32, height: u32) -> (layout:
        StreamLayout)
        ensures
            layout == (StreamLayout::Scaled {
                source: (0u32, 0u32, source_width, source_height),
                target: (0u32, 0u32, width, height),
            }),
    {
        StreamLayout::Scaled {
            source: (0, 0, source_width, source_height),
            target: (0, 0, width, height),
        }
    }

    /// A crop of the source that covers the whole output.
    pub fn fill(crop: PixelRect, width: u32, height: u32) -> (layout: StreamLayout)
        ensures
            layout == (StreamLayout::Scaled { source: crop, target: (0u32, 0u32, width, height) }),
    {
        StreamLayout::Scaled { source: crop, target: (0, 0, width, height) }
    }

    /// The whole source scaled to `fitted` and centred, leaving bars around it.
    pub fn fit(
        source_width: u32,
        source_height: u32,
        width: u32,
        height: u32,
        fitted: (u32, u32),
    ) -> (layout: StreamLayout)
        requires
            fitted.0 <= width,
            fitted.1 <= height,
        ensures
            layout == (StreamLayout::Scaled {
                source: (0u32, 0u32, source_width, source_height),
                target: (
                    ((width - fitted.0) / 2) as u32,
                    ((height - fitted.1) / 2) as u32,
                    fitted.0,
                    fitted.1,
                ),
            }),
    {
        let (target_width, target_height) = fitted;
        StreamLayout::Scaled {
            source: (0, 0, source_width, source_height),
            target: ((width - target_width) / 2, (height - target_height) / 2, target_width, target_height),
        }
    }

    /// The centre of the source, unscaled, in the centre of the output.
    pub fn center(source_width: u32, source_height: u32, width: u32, height: u32) -> (layout:
        StreamLayout)
        ensures
            ({
                let cw = if source_width < width {
                    source_width
                } else {
                    width
                };
                let ch = if source_height < height {
                    source_height
                } else {
                    height
                };
                layout == (StreamLayout::Scaled {
                    source: (
                        ((source_width - cw) / 2) as u32,
                        ((source_height - ch) / 2) as u32,
                        cw,
                        ch,
                    ),
                    target: (((width - cw) / 2) as u32, ((height - ch) / 2) as u32, cw, ch),
                })
            }),
    {
        let copy_width = if source_width < width {
            source_width
        } else {
            width
        };
        let copy_height = if source_height < height {
            source_height
        } else {
            height
        };
        StreamLayout::Scaled {
            source: (
                (source_width - copy_width) / 2,
                (source_height - copy_height) / 2,
                copy_width,
                copy_height,
            ),
            target: ((width - copy_width) / 2, (height - copy_height) / 2, copy_width, copy_height),
        }
    }
}

/// The opaque black a stream frame starts from.
pub open spec fn background_byte(i: int) -> u8 {
    if i % 4 == 3 {
        255u8
    } else {
        0u8
    }
}

/// Byte `i` of the stream frame composed with `layout`.
pub open spec fn frame_byte(
    layout: StreamLayout,
    source: Seq<u8>,
    source_width: int,
    source_height: int,
    width: int,
    i: int,
) -> u8 {
    match layout {
        StreamLayout::Scaled { source: src, target: dst } => {
            if dst.2 > 0 && in_region(i, width, dst, dst.3 as int, 0) {
                scaled_byte(source, source_width, src, width, dst, i)
            } else {
                background_byte(i)
            }
        },
        StreamLayout::Tile => swizzled(
            source,
            source_width,
            pixel_col(i, width) % source_width,
            pixel_row(i, width) % source_height,
            i % 4,
        ),
    }
}

/// The layout can be applied to a source of this size and an output of this size.
pub open spec fn layout_fits(
    layout: StreamLayout,
    source_len: int,
    source_width: int,
    source_height: int,
    width: int,
    height: int,
) -> bool {
    match layout {
        StreamLayout::Scaled { source: src, target: dst } => scale_fits(
            source_len,
            source_width,
            src,
            width * height * 4,
            width,
            dst,
        ),
        StreamLayout::Tile => source_width > 0 && source_height > 0 && source_width * source_height
            * 4 <= source_len,
    }
}

/// The whole stream frame composed with `layout`, byte by byte.
pub open spec fn stream_frame(
    layout: StreamLayout,
    source: Seq<u8>,
    source_width: int,
    source_height: int,
    width: int,
    height: int,
) -> Seq<u8> {
    Seq::new(
        (width * height * 4) as nat,
        |i: int| frame_byte(layout, source, source_width, source_height, width, i),
    )
}

proof fn lemma_tile_source(x: int, y: int, sw: int, sh: int)
    requires
        sw > 0,
        sh > 0,
        x >= 0,
        y >= 0,
    ensures
        pixel_offset(sw, x % sw, y % sh) + 4 <= sw * sh * 4,
        0 <= x % sw < sw,
        0 <= y % sh < sh,
{
    vstd::arithmetic::div_mod::lemma_mod_bound(x, sw);
    vstd::arithmetic::div_mod::lemma_mod_bound(y, sh);
    lemma_pixel_offset_bound(sw, x % sw, y % sh, sh);
}

fn fill_background(output: &mut Vec<u8>, len: usize)
    ensures
        final(output)@.len() == len,
        forall|i: int| 0 <= i < len ==> #[trigger] final(output)@[i] == background_byte(i),
{
    output.clear();
    let mut i: usize = 0;
    while i < len
        invariant
            i <= len,
            output@.len() == i,
            forall|j: int| 0 <= j < i ==> #[trigger] output@[j] == background_byte(j),
        decreases len - i,
    {
        if i % 4 == 3 {
            output.push(255u8);
        } else {
            output.push(0u8);
        }
        i = i + 1;
    }
}

fn tile_frame(
    output: &mut Vec<u8>,
    source: &[u8],
    source_width: u32,
    source_height: u32,
    width: u32,
    height: u32,
)
    requires
        old(output)@.len() == width * height * 4,
        source_width > 0,
        source_height > 0,
        source_width * source_height * 4 <= source@.len(),
    ensures
        final(output)@.len() == old(output)@.len(),
        forall|i: int|
            0 <= i < old(output)@.len() ==> #[trigger] final(output)@[i] == frame_byte(
                StreamLayout::Tile,
                source@,
                source_width as int,
                source_height as int,
                width as int,
                i,
            ),
{
    let ghost w = width as int;
    let ghost len = output@.len();
    if width == 0 || height == 0 {
        proof {
            assert(len == 0) by (nonlinear_arith)
                requires
                    len == w * height * 4,
                    w == 0 || height == 0,
            ;
        }
        return;
    }
    let ghost initial = output@;
    let ghost rect: PixelRect = (0u32, 0u32, width, height);
    let mut y: u32 = 0;
    while y < height
        invariant
            width > 0,
            height > 0,
            y <= height,
            w == width,
            rect == (0u32, 0u32, width, height),
            source_width > 0,
            source_height > 0,
            source_width * source_height * 4 <= source@.len(),
            len == w * height * 4,
            output@.len() == len,
            forall|i: int|
                0 <= i < len ==> #[trigger] output@[i] == if in_region(i, w, rect, y as int, 0) {
                    frame_byte(
                        StreamLayout::Tile,
                        source@,
                        source_width as int,
                        source_height as int,
                        w,
                        i,
                    )
                } else {
                    initial[i]
                },
        decreases height - y,
    {
        let mut x: u32 = 0;
        while x < width
            invariant
                width > 0,
                height > 0,
                y < height,
                x <= width,
                w == width,
                rect == (0u32, 0u32, width, height),
                source_width > 0,
                source_height > 0,
                source_width * source_height * 4 <= source@.len(),
                len == w * height * 4,
                output@.len() == len,
                forall|i: int|
                    0 <= i < len ==> #[trigger] output@[i] == if in_region(
                        i,
                        w,
                        rect,
                        y as int,
                        x as int,
                    ) {
                        frame_byte(
                            StreamLayout::Tile,
                            source@,
                            source_width as int,
                            source_height as int,
                            w,
                            i,
                        )
                    } else {
                        initial[i]
                    },
            decreases width - x,
        {
            proof {
                lemma_tile_source(x as int, y as int, source_width as int, source_height as int);
                lemma_pixel_offset_bound(w, x as int, y as int, height as int);
            }
            copy_pixel(
                source,
                source_width,
                x % source_width,
                y % source_height,
                output.as_mut_slice(),
                width,
                x,
                y,
            );
            proof {
                assert forall|i: int| 0 <= i < len implies #[trigger] output@[i] == if in_region(
                    i,
                    w,
                    rect,
                    y as int,
                    x + 1,
                ) {
                    frame_byte(
                        StreamLayout::Tile,
                        source@,
                        source_width as int,
                        source_height as int,
                        w,
                        i,
                    )
                } else {
                    initial[i]
                } by {
                    lemma_pixel_membership(i, w, x as int, y as int);
                }
            }
            x = x + 1;
        }
        proof {
            assert forall|i: int| 0 <= i < len implies #[trigger] output@[i] == if in_region(
                i,
                w,
                rect,
                y + 1,
                0,
            ) {
                frame_byte(
                    StreamLayout::Tile,
                    source@,
                    source_width as int,
                    source_height as int,
                    w,
                    i,
                )
            } else {
                initial[i]
            } by {
                assert(in_region(i, w, rect, y as int, width as int) == in_region(
                    i,
                    w,
                    rect,
                    y + 1,
                    0,
                ));
            }
        }
        y = y + 1;
    }
    proof {
        assert forall|i: int| 0 <= i < len implies in_region(i, w, rect, height as int, 0) by {
            lemma_pixel_decompose(i, w);
            let row = pixel_row(i, w);
            if row >= height {
                assert(pixel_offset(w, pixel_col(i, w), row) >= w * height * 4) by (nonlinear_arith)
                    requires
                        row >= height,
                        pixel_col(i, w) >= 0,
                        w > 0,
                ;
            }
        }
    }
}

/// Composes one stream frame of `width` x `height` opaque RGBA pixels from a
/// BGRA source frame: black everywhere, with the source laid out by `layout`.
pub fn render_stream_frame(
    output: &mut Vec<u8>,
    source: &[u8],
    source_width: u32,
    source_height: u32,
    width: u32,
    height: u32,
    layout: StreamLayout,
)
    requires
        width * height * 4 <= usize::MAX,
        layout_fits(
            layout,
            source@.len() as int,
            source_width as int,
            source_height as int,
            width as int,
            height as int,
        ),
    ensures
        final(output)@.len() == width * height * 4,
        forall|i: int|
            0 <= i < width * height * 4 ==> #[trigger] final(output)@[i] == frame_byte(
                layout,
                source@,
                source_width as int,
                source_height as int,
                width as int,
                i,
            ),
        final(output)@ == stream_frame(
            layout,
            source@,
            source_width as int,
            source_height as int,
            width as int,
            height as int,
        ),
{
    proof {
        lemma_u32_area_fits(width, height);
    }
    let len = (width as usize) * (height as usize) * 4;
    fill_background(output, len);
    match layout {
        StreamLayout::Scaled { source: src, target: dst } => {
            copy_scaled(
                source,
                source_width,
                source_height,
                src,
                output.as_mut_slice(),
                width,
                height,
                dst,
            );
        },
        StreamLayout::Tile => {
            tile_frame(output, source, source_width, source_height, width, height);
        },
    }
    assert(output@ =~= stream_frame(
        layout,
        source@,
        source_width as int,
        source_height as int,
        width as int,
        height as int,
    ));
}

proof fn lemma_u32_area_fits(width: u32, height: u32)
    ensures
        (width as int) * (height as int) >= 0,
{
    assert((width as int) * (height as int) >= 0) by (nonlinear_arith);
}

/// Composes a new stream frame; see `render_stream_frame`.
pub fn compose_stream_frame(
    source: &[u8],
    source_width: u32,
    source_height: u32,
    width: u32,
    height: u32,
    layout: StreamLayout,
) -> (frame: Vec<u8>)
    requires
        width * height * 4 <= usize::MAX,
        layout_fits(
            layout,
            source@.len() as int,
            source_width as int,
            source_height as int,
            width as int,
            height as int,
        ),
    ensures
        frame@.len() == width * height * 4,
        forall|i: int|
            0 <= i < width * height * 4 ==> #[trigger] frame@[i] == frame_byte(
                layout,
                source@,
                source_width as int,
                source_height as int,
                width as int,
                i,
            ),
        frame@ == stream_frame(
            layout,
            source@,
            source_width as int,
            source_height as int,
            width as int,
            height as int,
        ),
{
    let mut output = Vec::new();
    render_stream_frame(&mut output, source, source_width, source_height, width, height, layout);
    output
}

/// Whether a stream frame can be composed: the output fits in memory and the
/// layout stays inside the source and the output.
pub fn stream_frame_fits(
    layout: StreamLayout,
    source_len: usize,
    source_width: u32,
    source_height: u32,
    width: u32,
    height: u32,
) -> (fits: bool)
    ensures
        fits == (width * height * 4 <= usize::MAX && layout_fits(
            layout,
            source_len as int,
            source_width as int,
            source_height as int,
            width as int,
            height as int,
        )),
{
    let area: u128 = wide_product(width as u128, height as u128) * 4;
    if area > usize::MAX as u128 {
        return false;
    }
    match layout {
        StreamLayout::Scaled { source: src, target: dst } => {
            if dst.2 == 0 || dst.3 == 0 {
                return true;
            }
            let span_x: u128 = wide_product((dst.2 - 1) as u128, src.2 as u128);
            let span_y: u128 = wide_product((dst.3 - 1) as u128, src.3 as u128);
            let last_x: u128 = (src.0 as u128) + span_x / (dst.2 as u128);
            let last_y: u128 = (src.1 as u128) + span_y / (dst.3 as u128);
            proof {
                vstd::arithmetic::div_mod::lemma_div_is_ordered_by_denominator(span_x as int, 1, dst.2 as int);
                vstd::arithmetic::div_mod::lemma_div_is_ordered_by_denominator(span_y as int, 1, dst.3 as int);
            }
            if last_x > u32::MAX as u128 || last_y > u32::MAX as u128 {
                return false;
            }
            let source_end: u128 = (wide_product(last_y, source_width as u128) + last_x) * 4 + 3;
            let target_end: u128 = (wide_product(
                (dst.1 as u128) + (dst.3 as u128) - 1,
                width as u128,
            ) + (dst.0 as u128) + (dst.2 as u128) - 1) * 4 + 4;
            source_end <= source_len as u128 && (dst.0 as u128) + (dst.2 as u128) <= width as u128
                && target_end <= area && span_x <= u32::MAX as u128 && span_y <= u32::MAX as u128
                && (dst.1 as u128) + (dst.3 as u128) - 1 <= u32::MAX as u128
        },
        StreamLayout::Tile => {
            let tile: u128 = wide_product(source_width as u128, source_height as u128) * 4;
            source_width > 0 && source_height > 0 && tile <= source_len as u128
        },
    }
}

fn wide_product(a: u128, b: u128) -> (p: u128)
    requires
        a <= 0x2_0000_0000,
        b <= 0x2_0000_0000,
    ensures
        p == a * b,
        p <= 0x4_0000_0000_0000_0000,
{
    assert(a * b <= 0x2_0000_0000 * 0x2_0000_0000) by (nonlinear_arith)
        requires
            a <= 0x2_0000_0000,
            b <= 0x2_0000_0000,
    ;
    a * b
}

/// Rendering is a function of the source, the sizes and the layout alone:
/// nothing of a reused buffer's previous frame survives, so two renders of the
/// same frame into different buffers give the same bytes.
pub proof fn lemma_render_ignores_previous_output(
    first: Seq<u8>,
    second: Seq<u8>,
    layout: StreamLayout,
    source: Seq<u8>,
    source_width: int,
    source_height: int,
    width: int,
    height: int,
)
    requires
        first == stream_frame(layout, source, source_width, source_height, width, height),
        second == stream_frame(layout, source, source_width, source_height, width, height),
    ensures
        first == second,
{
}

/// Every composed stream frame is opaque: each pixel's alpha byte is 255.
pub proof fn lemma_stream_frames_are_opaque(
    layout: StreamLayout,
    source: Seq<u8>,
    source_width: int,
    source_height: int,
    width: int,
    i: int,
)
    requires
        i % 4 == 3,
    ensures
        frame_byte(layout, source, source_width, source_height, width, i) == 255,
{
}

/// Stretching a frame onto an output of its own size copies every pixel,
/// with red and blue swapped and alpha made opaque.
pub proof fn lemma_same_size_stretch_copies(source: Seq<u8>, width: u32, height: u32, i: int)
    requires
        width > 0,
        height > 0,
        0 <= i < width * height * 4,
    ensures
        frame_byte(
            StreamLayout::stretch_spec(width, height),
            source,
            width as int,
            height as int,
            width as int,
            i,
        ) == swizzled(
            source,
            width as int,
            pixel_col(i, width as int),
            pixel_row(i, width as int),
            i % 4,
        ),
{
    let w = width as int;
    let h = height as int;
    let col = pixel_col(i, w);
    let row = pixel_row(i, w);
    assert(0 <= i / 4 < w * h) by (nonlinear_arith)
        requires
            0 <= i < w * h * 4,
    ;
    assert(0 <= col < w && 0 <= row < h) by (nonlinear_arith)
        requires
            col == (i / 4) % w,
            row == (i / 4) / w,
            0 <= i / 4 < w * h,
            w > 0,
    ;
    assert(col * w / w == col) by (nonlinear_arith)
        requires
            w > 0,
    ;
    assert(row * h / h == row) by (nonlinear_arith)
        requires
            h > 0,
    ;
}

/// Tiling repeats the source from the top-left corner: output pixel `(x, y)`
/// is source pixel `(x mod sw, y mod sh)` with red and blue swapped and alpha
/// opaque, so a pixel one source width further right, or one source height
/// further down, is the same.
pub proof fn lemma_tile_repeats(
    source: Seq<u8>,
    sw: int,
    sh: int,
    width: int,
    x: int,
    y: int,
    c: int,
)
    requires
        sw > 0,
        sh > 0,
        width > 0,
        0 <= x,
        0 <= y,
        x + sw < width,
        0 <= c < 4,
    ensures
        frame_byte(StreamLayout::Tile, source, sw, sh, width, pixel_offset(width, x, y) + c)
            == swizzled(source, sw, x % sw, y % sh, c),
        frame_byte(StreamLayout::Tile, source, sw, sh, width, pixel_offset(width, x + sw, y) + c)
            == frame_byte(StreamLayout::Tile, source, sw, sh, width, pixel_offset(width, x, y) + c),
        frame_byte(StreamLayout::Tile, source, sw, sh, width, pixel_offset(width, x, y + sh) + c)
            == frame_byte(StreamLayout::Tile, source, sw, sh, width, pixel_offset(width, x, y) + c),
{
    lemma_pixel_index(width, x, y, c);
    lemma_pixel_index(width, x + sw, y, c);
    lemma_pixel_index(width, x, y + sh, c);
    vstd::arithmetic::div_mod::lemma_mod_add_multiples_vanish(x, sw);
    vstd::arithmetic::div_mod::lemma_mod_add_multiples_vanish(y, sh);
}

/// A scaled layout is black and opaque outside its target rectangle; inside,
/// output pixel `(x, y)` is the source pixel sampled at
/// `src.0 + (x - dst.0) * src.2 / dst.2`, `src.1 + (y - dst.1) * src.3 / dst.3`
/// (truncating), red and blue swapped and alpha opaque.
pub proof fn lemma_scaled_frame_pixels(
    src: PixelRect,
    dst: PixelRect,
    source: Seq<u8>,
    sw: int,
    sh: int,
    width: int,
    x: int,
    y: int,
    c: int,
)
    requires
        width > 0,
        0 <= x < width,
        0 <= y,
        0 <= c < 4,
    ensures
        ({
            let layout = StreamLayout::Scaled { source: src, target: dst };
            let b = frame_byte(layout, source, sw, sh, width, pixel_offset(width, x, y) + c);
            let inside = dst.2 > 0 && dst.0 <= x < dst.0 + dst.2 && dst.1 <= y < dst.1 + dst.3;
            &&& !inside ==> b == (if c == 3 {
                255u8
            } else {
                0u8
            })
            &&& inside ==> b == swizzled(
                source,
                sw,
                src.0 + (x - dst.0) * (src.2 as int) / (dst.2 as int),
                src.1 + (y - dst.1) * (src.3 as int) / (dst.3 as int),
                c,
            )
        }),
{
    lemma_pixel_index(width, x, y, c);
}

} // verus!
