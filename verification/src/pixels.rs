//! Pixel buffers: decoding, rectangle extraction and nearest-neighbor
//! resizing on raw, channel-interleaved samples.

use vstd::prelude::*;
use vstd::arithmetic::div_mod::{
    lemma_div_pos_is_pos, lemma_fundamental_div_mod_converse, lemma_multiply_divide_lt,
};
use vstd::arithmetic::mul::{lemma_mul_is_commutative, lemma_mul_strict_inequality};
use crate::errors::CropError;
use crate::geometry::CropWindow;

verus! {

/// A decoded raster: `height` rows of `width` pixels, each pixel
/// `channels` bytes, row-major and channel-interleaved.
pub struct PixelBuffer {
    pub width: u32,
    pub height: u32,
    pub channels: u32,
    pub data: Vec<u8>,
}

impl PixelBuffer {
    /// The byte buffer holds exactly one byte per channel of every pixel.
    pub open spec fn wf(self) -> bool {
        self.data@.len() == self.width * self.height * self.channels
    }

    /// Byte `c` of the pixel in column `x` of row `y`.
    pub open spec fn pixel_byte(self, x: int, y: int, c: int) -> u8 {
        self.data@[(y * self.width + x) * self.channels + c]
    }
}

/// A row-major index computed from in-range coordinates stays below the
/// buffer length.
proof fn lemma_rowmajor_bound(x: int, y: int, c: int, width: int, height: int, channels: int)
    by (nonlinear_arith)
    requires
        0 <= x < width,
        0 <= y < height,
        0 <= c < channels,
    ensures
        0 <= y * width + x < width * height,
        width * height <= width * height * channels,
        0 <= (y * width + x) * channels <= (y * width + x) * channels + c,
        (y * width + x) * channels + c < width * height * channels,
{
}

/// Composing and decomposing the flat row-major index
/// `(y * width + x) * channels + c`.
proof fn lemma_rowmajor_decompose(x: int, y: int, c: int, width: int, channels: int)
    requires
        0 <= x < width,
        0 <= c < channels,
        0 <= y,
    ensures
        (y * width + x) * channels + c == y * (width * channels) + (x * channels + c),
        0 <= x * channels + c < width * channels,
        ((y * width + x) * channels + c) / (width * channels) == y,
        ((y * width + x) * channels + c) % (width * channels) == x * channels + c,
        (x * channels + c) / channels == x,
        (x * channels + c) % channels == c,
{
    assert((y * width + x) * channels + c == y * (width * channels) + (x * channels + c))
        by (nonlinear_arith);
    assert(0 <= x * channels + c < width * channels) by (nonlinear_arith)
        requires
            0 <= x < width,
            0 <= c < channels,
    ;
    lemma_fundamental_div_mod_converse(
        (y * width + x) * channels + c,
        width * channels,
        y,
        x * channels + c,
    );
    lemma_fundamental_div_mod_converse(x * channels + c, channels, x, c);
}

/// What `image::load_from_memory` decodes from a byte string: width,
/// height, bytes per pixel and the raw samples, or nothing when the bytes
/// do not parse as a supported image.
pub uninterp spec fn image_decode(bytes: Seq<u8>) -> Option<(u32, u32, u32, Seq<u8>)>;

/// Decode an in-memory image byte string into a raw pixel buffer.
///
/// Relies on `image::load_from_memory`: decoding is a pure function of
/// the bytes alone; a decoded image holds exactly
/// `width * height * bytes_per_pixel` raw bytes, and every supported
/// color layout takes between 1 and 16 bytes per pixel.
#[verifier::external_body]
pub fn vec_to_image(v: &Vec<u8>) -> (r: Result<PixelBuffer, CropError>)
    ensures
        r is Ok <==> image_decode(v@) is Some,
        r is Err ==> r->Err_0 == CropError::DecodeFailure,
        r is Ok ==> r->Ok_0.width == image_decode(v@)->Some_0.0,
        r is Ok ==> r->Ok_0.height == image_decode(v@)->Some_0.1,
        r is Ok ==> r->Ok_0.channels == image_decode(v@)->Some_0.2,
        r is Ok ==> r->Ok_0.data@ == image_decode(v@)->Some_0.3,
        r is Ok ==> 1 <= r->Ok_0.channels <= 16,
        r is Ok ==> r->Ok_0.wf(),
{
    match image::load_from_memory(v) {
        Ok(img) => {
            let width = img.width();
            let height = img.height();
            let channels = img.color().bytes_per_pixel() as u32;
            Ok(PixelBuffer { width, height, channels, data: img.into_bytes() })
        },
        Err(_) => Err(CropError::DecodeFailure),
    }
}

/// Where byte `i` of the extracted rectangle comes from in the source
/// buffer: row `i / rowlen` of the window, byte `i % rowlen` within it.
pub open spec fn crop_src_pos(src: PixelBuffer, window: CropWindow, i: int) -> int {
    let rowlen = window.width * src.channels;
    ((window.y + i / rowlen) * src.width + window.x) * src.channels + i % rowlen
}

/// Every byte of one window row stays inside the source buffer.
proof fn lemma_crop_row_bound(
    wx: int,
    wy: int,
    y: int,
    win_w: int,
    sw: int,
    sh: int,
    ch: int,
    k: int,
)
    by (nonlinear_arith)
    requires
        0 <= wx,
        0 <= wy,
        0 <= y,
        1 <= ch,
        1 <= win_w,
        0 <= k < win_w * ch,
        wx + win_w <= sw,
        wy + y < sh,
    ensures
        0 <= (wy + y) * sw + wx < sw * sh,
        sw * sh <= sw * sh * ch,
        ((wy + y) * sw + wx) * ch + k < sw * sh * ch,
        0 <= ((wy + y) * sw + wx) * ch <= ((wy + y) * sw + wx) * ch + k,
{
}

/// Extract the crop window's rectangle from a decoded buffer.
///
/// Fails with `BackendFailure` exactly when the window does not lie
/// inside the source image; otherwise the result holds the window's
/// pixels unchanged.
pub fn crop_region(src: &PixelBuffer, window: &CropWindow) -> (r: Result<PixelBuffer, CropError>)
    requires
        src.wf(),
    ensures
        r is Ok <==> (window.x + window.width <= src.width && window.y + window.height
            <= src.height),
        r is Err ==> r == Err::<PixelBuffer, CropError>(CropError::BackendFailure),
        r is Ok ==> ({
            let out = r->Ok_0;
            &&& out.wf()
            &&& out.width == window.width
            &&& out.height == window.height
            &&& out.channels == src.channels
            &&& forall|x: int, y: int, c: int|
                0 <= x < window.width && 0 <= y < window.height && 0 <= c < src.channels
                    ==> out.pixel_byte(x, y, c) == src.pixel_byte(
                    window.x + x,
                    window.y + y,
                    c,
                )
        }),
{
    let sw = src.width;
    let sh = src.height;
    let ch = src.channels;
    if window.x > sw || window.width > sw - window.x || window.y > sh || window.height > sh
        - window.y {
        return Err(CropError::BackendFailure);
    }
    if window.width == 0 || window.height == 0 || ch == 0 {
        let empty = PixelBuffer {
            width: window.width,
            height: window.height,
            channels: ch,
            data: Vec::new(),
        };
        proof {
            assert(window.width * window.height * ch == 0) by (nonlinear_arith)
                requires
                    window.width == 0 || window.height == 0 || ch == 0,
            ;
        }
        return Ok(empty);
    }
    let win_w = window.width as usize;
    let win_h = window.height as usize;
    let chs = ch as usize;
    let total: usize = src.data.len();
    proof {
        assert(win_w as int * chs as int <= sw as int * sh as int * ch as int)
            by (nonlinear_arith)
            requires
                0 < win_w <= sw as int,
                0 < win_h <= sh as int,
                0 < chs == ch,
        ;
    }
    let rowlen: usize = win_w * chs;
    proof {
        assert(1 <= rowlen) by (nonlinear_arith)
            requires
                rowlen == win_w as int * chs as int,
                1 <= win_w,
                1 <= chs,
        ;
    }
    let mut data: Vec<u8> = Vec::new();
    let mut y: usize = 0;
    while y < win_h
        invariant
            src.wf(),
            sw == src.width,
            sh == src.height,
            ch == src.channels,
            chs == ch,
            1 <= ch,
            win_w == window.width,
            win_h == window.height,
            1 <= win_w,
            1 <= win_h,
            window.x + win_w <= sw,
            window.y + win_h <= sh,
            total == src.data@.len(),
            rowlen == win_w * chs,
            1 <= rowlen,
            y <= win_h,
            data@.len() == y * rowlen,
            forall|i: int|
                0 <= i < data@.len() ==> data@[i] == src.data@[crop_src_pos(*src, *window, i)],
        decreases win_h - y,
    {
        proof {
            lemma_crop_row_bound(
                window.x as int,
                window.y as int,
                y as int,
                win_w as int,
                sw as int,
                sh as int,
                ch as int,
                0,
            );
        }
        let row_base: usize = ((window.y as usize + y) * (sw as usize) + window.x as usize)
            * chs;
        let mut k: usize = 0;
        while k < rowlen
            invariant
                src.wf(),
                sw == src.width,
                sh == src.height,
                ch == src.channels,
                chs == ch,
                1 <= ch,
                win_w == window.width,
                win_h == window.height,
                1 <= win_w,
                window.x + win_w <= sw,
                window.y + win_h <= sh,
                total == src.data@.len(),
                rowlen == win_w * chs,
                1 <= rowlen,
                y < win_h,
                k <= rowlen,
                row_base == ((window.y + y) * sw + window.x) * ch,
                data@.len() == y * rowlen + k,
                forall|i: int|
                    0 <= i < data@.len() ==> data@[i] == src.data@[crop_src_pos(*src, *window, i)],
            decreases rowlen - k,
        {
            proof {
                lemma_crop_row_bound(
                    window.x as int,
                    window.y as int,
                    y as int,
                    win_w as int,
                    sw as int,
                    sh as int,
                    ch as int,
                    k as int,
                );
                lemma_fundamental_div_mod_converse(
                    y as int * rowlen as int + k,
                    rowlen as int,
                    y as int,
                    k as int,
                );
            }
            let b = src.data[row_base + k];
            data.push(b);
            k += 1;
        }
        proof {
            assert((y + 1) * rowlen == y * rowlen + rowlen) by (nonlinear_arith);
        }
        y += 1;
    }
    let out = PixelBuffer { width: window.width, height: window.height, channels: ch, data };
    proof {
        assert(out.wf()) by {
            assert(win_h as int * (win_w as int * chs as int) == win_w as int * win_h as int
                * chs as int) by (nonlinear_arith);
        }
        assert forall|x: int, yy: int, c: int|
            0 <= x < window.width && 0 <= yy < window.height && 0 <= c
                < src.channels implies out.pixel_byte(x, yy, c) == src.pixel_byte(
            window.x + x,
            window.y + yy,
            c,
        ) by {
            lemma_rowmajor_decompose(x, yy, c, win_w as int, chs as int);
            lemma_rowmajor_bound(x, yy, c, win_w as int, win_h as int, chs as int);
            assert(((window.y + yy) * sw + window.x) * ch + (x * ch + c) == ((window.y + yy) * sw
                + (window.x + x)) * ch + c) by (nonlinear_arith);
        }
    }
    Ok(out)
}

/// The nearest-neighbor source coordinate of an in-range target
/// coordinate stays inside the source dimension.
pub proof fn lemma_scaled_index_bound(i: int, dim: int, target: int)
    requires
        0 <= i < target,
        1 <= dim,
    ensures
        0 <= i * dim / target < dim,
{
    lemma_div_pos_is_pos(i * dim, target);
    lemma_mul_strict_inequality(i, target, dim);
    lemma_mul_is_commutative(target, dim);
    lemma_multiply_divide_lt(i * dim, target, dim);
}

/// Where byte `k` of the resized buffer comes from in the source: byte
/// `k % channels` of the nearest-neighbor source pixel of the target
/// pixel that `k` lies in.
pub open spec fn resize_src_pos(src: PixelBuffer, target_w: u32, target_h: u32, k: int) -> int {
    let rowlen = target_w * src.channels;
    let j = k / rowlen;
    let rem = k % rowlen;
    let i = rem / (src.channels as int);
    let c = rem % (src.channels as int);
    (j * src.height / (target_h as int) * src.width + i * src.width / (target_w as int))
        * src.channels + c
}

/// Resize a buffer to the target dimensions with nearest-neighbor
/// sampling: target pixel `(i, j)` takes the source pixel at
/// `(floor(i * width / target_w), floor(j * height / target_h))`.
///
/// Fails with `InvalidArgument` exactly when a target side is zero or
/// the target buffer would not fit in memory.
pub fn resize_nearest(src: &PixelBuffer, target_w: u32, target_h: u32) -> (r: Result<
    PixelBuffer,
    CropError,
>)
    requires
        src.wf(),
        1 <= src.width,
        1 <= src.height,
    ensures
        r is Ok <==> (1 <= target_w && 1 <= target_h && target_w * target_h * src.channels
            <= usize::MAX),
        r is Err ==> r == Err::<PixelBuffer, CropError>(CropError::InvalidArgument),
        r is Ok ==> ({
            let out = r->Ok_0;
            &&& out.wf()
            &&& out.width == target_w
            &&& out.height == target_h
            &&& out.channels == src.channels
            &&& forall|i: int, j: int, c: int|
                0 <= i < target_w && 0 <= j < target_h && 0 <= c < src.channels
                    ==> out.pixel_byte(i, j, c) == src.pixel_byte(
                    i * src.width / (target_w as int),
                    j * src.height / (target_h as int),
                    c,
                )
        }),
{
    let sw = src.width;
    let sh = src.height;
    let ch = src.channels;
    if target_w == 0 || target_h == 0 {
        return Err(CropError::InvalidArgument);
    }
    if ch == 0 {
        proof {
            assert(target_w * target_h * ch == 0) by (nonlinear_arith)
                requires
                    ch == 0,
            ;
        }
        let empty = PixelBuffer {
            width: target_w,
            height: target_h,
            channels: ch,
            data: Vec::new(),
        };
        return Ok(empty);
    }
    let rowlen: usize = match (target_w as usize).checked_mul(ch as usize) {
        Some(n) => n,
        None => {
            proof {
                assert(target_w * target_h * ch > usize::MAX) by (nonlinear_arith)
                    requires
                        target_w as int * ch as int > usize::MAX,
                        1 <= target_h,
                ;
            }
            return Err(CropError::InvalidArgument);
        },
    };
    let total: usize = match rowlen.checked_mul(target_h as usize) {
        Some(n) => n,
        None => {
            proof {
                assert(target_w * target_h * ch > usize::MAX) by (nonlinear_arith)
                    requires
                        rowlen == target_w as int * ch as int,
                        rowlen as int * target_h as int > usize::MAX,
                ;
            }
            return Err(CropError::InvalidArgument);
        },
    };
    proof {
        assert(target_w * target_h * ch == total as int) by (nonlinear_arith)
            requires
                total == rowlen as int * target_h as int,
                rowlen == target_w as int * ch as int,
        ;
    }
    let tw = target_w as usize;
    let th = target_h as usize;
    let chs = ch as usize;
    let src_total: usize = src.data.len();
    let mut data: Vec<u8> = Vec::new();
    let mut j: usize = 0;
    while j < th
        invariant
            src.wf(),
            sw == src.width,
            sh == src.height,
            ch == src.channels,
            chs == ch,
            1 <= chs,
            1 <= sw,
            1 <= sh,
            tw == target_w,
            th == target_h,
            1 <= tw,
            1 <= th,
            src_total == src.data@.len(),
            rowlen == tw * chs,
            total == rowlen * th,
            j <= th,
            data@.len() == j * rowlen,
            forall|k: int|
                0 <= k < data@.len() ==> data@[k] == src.data@[
                    resize_src_pos(*src, target_w, target_h, k)
                ],
        decreases th - j,
    {
        proof {
            lemma_scaled_index_bound(j as int, sh as int, th as int);
            assert((j as int) * (sh as int) < 0x1_0000_0000_0000_0000) by (nonlinear_arith)
                requires
                    0 <= j < 0x1_0000_0000,
                    0 <= sh < 0x1_0000_0000,
            ;
        }
        let sy: usize = ((j as u64 * sh as u64) / (th as u64)) as usize;
        let mut i: usize = 0;
        while i < tw
            invariant
                src.wf(),
                sw == src.width,
                sh == src.height,
                ch == src.channels,
                chs == ch,
                1 <= chs,
                1 <= sw,
                1 <= sh,
                tw == target_w,
                th == target_h,
                1 <= tw,
                1 <= th,
                src_total == src.data@.len(),
                rowlen == tw * chs,
                j < th,
                i <= tw,
                sy == j * sh / (th as int),
                sy < sh,
                data@.len() == j * rowlen + i * chs,
                forall|k: int|
                    0 <= k < data@.len() ==> data@[k] == src.data@[
                        resize_src_pos(*src, target_w, target_h, k)
                    ],
            decreases tw - i,
        {
            proof {
                lemma_scaled_index_bound(i as int, sw as int, tw as int);
                assert((i as int) * (sw as int) < 0x1_0000_0000_0000_0000) by (nonlinear_arith)
                    requires
                        0 <= i < 0x1_0000_0000,
                        0 <= sw < 0x1_0000_0000,
                ;
            }
            let sx: usize = ((i as u64 * sw as u64) / (tw as u64)) as usize;
            proof {
                lemma_rowmajor_bound(sx as int, sy as int, 0, sw as int, sh as int, chs as int);
            }
            let pix_base: usize = (sy * (sw as usize) + sx) * chs;
            let mut c: usize = 0;
            while c < chs
                invariant
                    src.wf(),
                    sw == src.width,
                    sh == src.height,
                    ch == src.channels,
                    chs == ch,
                    1 <= chs,
                    1 <= sw,
                    1 <= sh,
                    tw == target_w,
                    th == target_h,
                    1 <= tw,
                    1 <= th,
                    src_total == src.data@.len(),
                    rowlen == tw * chs,
                    j < th,
                    i < tw,
                    sy == j * sh / (th as int),
                    sy < sh,
                    sx == i * sw / (tw as int),
                    sx < sw,
                    pix_base == (sy * sw + sx) * chs,
                    c <= chs,
                    data@.len() == j * rowlen + i * chs + c,
                    forall|k: int|
                        0 <= k < data@.len() ==> data@[k] == src.data@[
                            resize_src_pos(*src, target_w, target_h, k)
                        ],
                decreases chs - c,
            {
                proof {
                    lemma_rowmajor_bound(
                        sx as int,
                        sy as int,
                        c as int,
                        sw as int,
                        sh as int,
                        chs as int,
                    );
                    lemma_rowmajor_decompose(i as int, j as int, c as int, tw as int, chs as int);
                    assert((j * tw + i) * chs + c == j * rowlen + i * chs + c)
                        by (nonlinear_arith)
                        requires
                            rowlen == tw * chs,
                    ;
                }
                let b = src.data[pix_base + c];
                data.push(b);
                c += 1;
            }
            proof {
                assert((i + 1) * chs == i * chs + chs) by (nonlinear_arith);
            }
            i += 1;
        }
        proof {
            assert((j + 1) * rowlen == j * rowlen + rowlen) by (nonlinear_arith);
            assert(tw * chs == rowlen);
        }
        j += 1;
    }
    let out = PixelBuffer { width: target_w, height: target_h, channels: ch, data };
    proof {
        assert(out.wf()) by {
            assert(th as int * (tw as int * chs as int) == tw as int * th as int * chs as int)
                by (nonlinear_arith);
        }
        assert forall|i: int, jj: int, c: int|
            0 <= i < target_w && 0 <= jj < target_h && 0 <= c
                < src.channels implies out.pixel_byte(i, jj, c) == src.pixel_byte(
            i * src.width / (target_w as int),
            jj * src.height / (target_h as int),
            c,
        ) by {
            lemma_rowmajor_decompose(i, jj, c, tw as int, chs as int);
            lemma_rowmajor_bound(i, jj, c, tw as int, th as int, chs as int);
            assert(jj * (tw as int * chs as int) + (i * chs + c) == jj * rowlen + (i * chs + c))
                by (nonlinear_arith)
                requires
                    rowlen == tw as int * chs as int,
            ;
        }
    }
    Ok(out)
}

} // verus!
