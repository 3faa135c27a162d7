//! Batch dispatch: request validation, per-unit crop-and-resize, and
//! deterministic assembly of result slabs into one flat output buffer.

use vstd::prelude::*;
use vstd::arithmetic::div_mod::{
    lemma_div_pos_is_pos, lemma_fundamental_div_mod, lemma_mod_bound, lemma_multiply_divide_lt,
};
use crate::errors::CropError;
use crate::format::{get_image_format, spec_get_image_format};
use crate::geometry::{compute_crop, spec_compute_crop, CropWindow, Frac};
use crate::pixels::{
    crop_region, image_decode, lemma_scaled_index_bound, resize_nearest, vec_to_image, PixelBuffer,
};

verus! {

/// One batch request: per-image paths and crop parameters, plus the
/// window size, channel count and scale bound shared across the batch.
pub struct Job {
    pub paths: Vec<Vec<u8>>,
    pub scales: Vec<Frac>,
    pub xs: Vec<Frac>,
    pub ys: Vec<Frac>,
    pub window_size: u32,
    pub chans: u32,
    pub max_img_percent: Frac,
    pub length: usize,
}

impl Job {
    /// Every fraction of the request has a nonzero denominator.
    pub open spec fn fracs_wf(self) -> bool {
        &&& self.max_img_percent.wf()
        &&& forall|k: int| 0 <= k < self.scales@.len() ==> self.scales@[k].wf()
        &&& forall|k: int| 0 <= k < self.xs@.len() ==> self.xs@[k].wf()
        &&& forall|k: int| 0 <= k < self.ys@.len() ==> self.ys@[k].wf()
    }
}

/// Bytes one result occupies in the output buffer:
/// `window_size * window_size * chans`.
pub open spec fn spec_stride(window_size: u32, chans: u32) -> int {
    window_size * window_size * chans
}

/// The batch invariants: all parameter arrays have the declared length,
/// window size and channel count are nonzero, and the destination buffer
/// holds exactly `length` strides.
pub open spec fn spec_valid_batch(job: Job, dest_len: int) -> bool {
    &&& job.paths@.len() == job.length
    &&& job.scales@.len() == job.length
    &&& job.xs@.len() == job.length
    &&& job.ys@.len() == job.length
    &&& 1 <= job.window_size
    &&& 1 <= job.chans
    &&& dest_len == job.length * spec_stride(job.window_size, job.chans)
}

/// The product of three `u32` values fits in a `u128`.
proof fn lemma_u32_cube_fits(a: int, b: int, c: int)
    by (nonlinear_arith)
    requires
        0 <= a < 0x1_0000_0000,
        0 <= b < 0x1_0000_0000,
        0 <= c < 0x1_0000_0000,
    ensures
        0 <= a * b < 0x1_0000_0000_0000_0000,
        0 <= a * b * c < 0x1_0000_0000_0000_0000_0000_0000,
{
}

/// Check the batch invariants against a destination buffer length.
pub fn validate_batch(job: &Job, dest_len: usize) -> (r: bool)
    ensures
        r == spec_valid_batch(*job, dest_len as int),
{
    if job.paths.len() != job.length || job.scales.len() != job.length || job.xs.len()
        != job.length || job.ys.len() != job.length {
        return false;
    }
    if job.window_size == 0 || job.chans == 0 {
        return false;
    }
    proof {
        lemma_u32_cube_fits(job.window_size as int, job.window_size as int, job.chans as int);
    }
    let stride: u128 = (job.window_size as u128) * (job.window_size as u128) * (job.chans
        as u128);
    if job.length == 0 {
        return dest_len == 0;
    }
    if stride > (usize::MAX as u128) {
        proof {
            assert(job.length as int * (stride as int) >= stride as int) by (nonlinear_arith)
                requires
                    1 <= job.length,
                    0 <= stride,
            ;
        }
        return false;
    }
    proof {
        assert((job.length as int) * (stride as int) < 0x1_0000_0000_0000_0000_0000_0000_0000_0000)
            by (nonlinear_arith)
            requires
                0 <= (job.length as int) < 0x1_0000_0000_0000_0000,
                0 <= (stride as int) < 0x1_0000_0000_0000_0000,
        ;
    }
    let total: u128 = (job.length as u128) * stride;
    (dest_len as u128) == total
}

/// The output buffer after writing `slab` into slot `k`: bytes
/// `[k*stride, (k+1)*stride)` come from the slab, all others are kept.
pub open spec fn spec_place(dest: Seq<u8>, k: int, stride: int, slab: Seq<u8>) -> Seq<u8> {
    Seq::new(
        dest.len(),
        |i: int|
            if k * stride <= i < (k + 1) * stride {
                slab[i - k * stride]
            } else {
                dest[i]
            },
    )
}

/// The bytes of result slot `k` in the output buffer.
pub open spec fn spec_region(dest: Seq<u8>, k: int, stride: int) -> Seq<u8> {
    dest.subrange(k * stride, (k + 1) * stride)
}

/// Law: distinct result slots occupy disjoint byte ranges — the earlier
/// slot ends at or before the later one begins.
pub proof fn lemma_regions_disjoint(k1: int, k2: int, stride: int)
    by (nonlinear_arith)
    requires
        0 <= k1 < k2,
        1 <= stride,
    ensures
        0 <= k1 * stride,
        (k1 + 1) * stride <= k2 * stride,
{
}

/// Law: every result slot inside the output buffer spans exactly one
/// stride of bytes.
pub proof fn lemma_region_len(dest: Seq<u8>, k: int, stride: int)
    requires
        0 <= k,
        1 <= stride,
        (k + 1) * stride <= dest.len(),
    ensures
        spec_region(dest, k, stride).len() == stride,
{
    assert(0 <= k * stride && k * stride + stride == (k + 1) * stride) by (nonlinear_arith)
        requires
            0 <= k,
            1 <= stride,
    ;
}

/// Law: placements at distinct indices commute — the assembled buffer
/// does not depend on the order in which unit results arrive, only on
/// each unit's own index.
pub proof fn lemma_place_order_irrelevant(
    dest: Seq<u8>,
    k1: int,
    slab1: Seq<u8>,
    k2: int,
    slab2: Seq<u8>,
    stride: int,
)
    requires
        0 <= k1,
        0 <= k2,
        k1 != k2,
        1 <= stride,
        slab1.len() == stride,
        slab2.len() == stride,
    ensures
        spec_place(spec_place(dest, k1, stride, slab1), k2, stride, slab2) == spec_place(
            spec_place(dest, k2, stride, slab2),
            k1,
            stride,
            slab1,
        ),
{
    let a = spec_place(spec_place(dest, k1, stride, slab1), k2, stride, slab2);
    let b = spec_place(spec_place(dest, k2, stride, slab2), k1, stride, slab1);
    assert forall|i: int| 0 <= i < dest.len() implies a[i] == b[i] by {
        assert(!(k1 * stride <= i < (k1 + 1) * stride && k2 * stride <= i < (k2 + 1) * stride))
            by (nonlinear_arith)
            requires
                k1 != k2,
                0 <= k1,
                0 <= k2,
                1 <= stride,
        ;
    }
    assert(a =~= b);
}

/// Placing a slab fills its own slot with exactly the slab's bytes.
proof fn lemma_place_region_self(dest: Seq<u8>, k: int, stride: int, slab: Seq<u8>)
    requires
        0 <= k,
        1 <= stride,
        slab.len() == stride,
        (k + 1) * stride <= dest.len(),
    ensures
        spec_region(spec_place(dest, k, stride, slab), k, stride) == slab,
{
    assert(0 <= k * stride) by (nonlinear_arith)
        requires
            0 <= k,
            1 <= stride,
    ;
    assert(k * stride + stride == (k + 1) * stride) by (nonlinear_arith);
    assert(spec_region(spec_place(dest, k, stride, slab), k, stride) =~= slab);
}

/// Placing a slab leaves every other slot unchanged.
proof fn lemma_place_region_other(dest: Seq<u8>, k: int, stride: int, slab: Seq<u8>, j: int)
    requires
        0 <= k,
        0 <= j,
        j != k,
        1 <= stride,
        slab.len() == stride,
        (k + 1) * stride <= dest.len(),
        (j + 1) * stride <= dest.len(),
    ensures
        spec_region(spec_place(dest, k, stride, slab), j, stride) == spec_region(dest, j, stride),
{
    assert(0 <= j * stride && j * stride + stride == (j + 1) * stride) by (nonlinear_arith)
        requires
            0 <= j,
            1 <= stride,
    ;
    assert forall|i: int| j * stride <= i < (j + 1) * stride implies spec_place(
        dest,
        k,
        stride,
        slab,
    )[i] == dest[i] by {
        assert(!(k * stride <= i < (k + 1) * stride)) by (nonlinear_arith)
            requires
                j != k,
                0 <= j,
                0 <= k,
                1 <= stride,
                j * stride <= i < (j + 1) * stride,
        ;
    }
    assert(spec_region(spec_place(dest, k, stride, slab), j, stride) =~= spec_region(
        dest,
        j,
        stride,
    ));
}

/// Write one result slab into slot `index` of the output buffer, at byte
/// offset `index * stride_len`.
///
/// A slab of the wrong length is a fatal contract violation; a slot past
/// the end of the buffer is an invalid argument. The buffer is untouched
/// on failure.
pub fn place_slab(dest: &mut Vec<u8>, index: usize, stride_len: usize, slab: &Vec<u8>) -> (r:
    Result<(), CropError>)
    ensures
        r is Ok <==> (slab@.len() == stride_len && (index + 1) * stride_len <= old(dest)@.len()),
        slab@.len() != stride_len ==> r == Err::<(), CropError>(CropError::ContractViolation),
        slab@.len() == stride_len && (index + 1) * stride_len > old(dest)@.len() ==> r == Err::<
            (),
            CropError,
        >(CropError::InvalidArgument),
        r is Err ==> final(dest)@ == old(dest)@,
        r is Ok ==> final(dest)@ == spec_place(
            old(dest)@,
            index as int,
            stride_len as int,
            slab@,
        ),
{
    if slab.len() != stride_len {
        return Err(CropError::ContractViolation);
    }
    let dlen = dest.len();
    let base = match index.checked_mul(stride_len) {
        Some(b) => b,
        None => {
            proof {
                assert((index + 1) * stride_len > usize::MAX) by (nonlinear_arith)
                    requires
                        (index as int) * (stride_len as int) > usize::MAX as int,
                ;
            }
            return Err(CropError::InvalidArgument);
        },
    };
    proof {
        assert((index + 1) * stride_len == base + stride_len) by (nonlinear_arith)
            requires
                base == (index as int) * (stride_len as int),
        ;
    }
    if stride_len > dlen || base > dlen - stride_len {
        proof {
            assert(base + stride_len > dlen);
        }
        return Err(CropError::InvalidArgument);
    }
    let mut i: usize = 0;
    while i < stride_len
        invariant
            slab@.len() == stride_len,
            base == index * stride_len,
            base + stride_len <= dest@.len(),
            dest@.len() <= usize::MAX,
            dest@.len() == old(dest)@.len(),
            i <= stride_len,
            forall|j: int| 0 <= j < i ==> dest@[base + j] == slab@[j],
            forall|j: int|
                0 <= j < dest@.len() && !(base <= j < base + i) ==> dest@[j] == old(dest)@[j],
        decreases stride_len - i,
    {
        let b = slab[i];
        dest[base + i] = b;
        i += 1;
    }
    proof {
        assert forall|j: int| 0 <= j < dest@.len() implies dest@[j] == spec_place(
            old(dest)@,
            index as int,
            stride_len as int,
            slab@,
        )[j] by {}
        assert(dest@ =~= spec_place(old(dest)@, index as int, stride_len as int, slab@));
    }
    Ok(())
}

/// One unit's result slab, element by element: byte `k` of the
/// nearest-neighbor resize of the crop window, read from the decoded
/// source samples.
pub open spec fn spec_unit_slab(
    w: u32,
    h: u32,
    ch: u32,
    data: Seq<u8>,
    cw: CropWindow,
    tw: u32,
    th: u32,
) -> Seq<u8> {
    Seq::new(
        (tw * th * ch) as nat,
        |k: int|
            {
                let rowlen = tw * ch;
                let j = k / (rowlen as int);
                let rem = k % (rowlen as int);
                let i = rem / (ch as int);
                let c = rem % (ch as int);
                let sx = cw.x + i * cw.width / (tw as int);
                let sy = cw.y + j * cw.height / (th as int);
                data[(sy * w + sx) * ch + c]
            },
    )
}

/// Everything one unit of the batch does to its file bytes, and every
/// error it can stop with: extension check, decode, crop-window
/// geometry, window containment, target-size check, then the resized
/// slab of `spec_unit_slab`.
pub open spec fn spec_unit_result(
    path: Seq<u8>,
    bytes: Seq<u8>,
    scale: Frac,
    x_crop: Frac,
    y_crop: Frac,
    max_img_percent: Frac,
    tw: u32,
    th: u32,
) -> Result<Seq<u8>, CropError> {
    if spec_get_image_format(path) is Err {
        Err(CropError::DecodeFailure)
    } else {
        match image_decode(bytes) {
            None => Err(CropError::DecodeFailure),
            Some((w, h, ch, data)) => match spec_compute_crop(
                w,
                h,
                scale,
                x_crop,
                y_crop,
                max_img_percent,
            ) {
                Err(e) => Err(e),
                Ok(cw) => if !(cw.x + cw.width <= w && cw.y + cw.height <= h) {
                    Err(CropError::BackendFailure)
                } else if !(1 <= tw && 1 <= th && tw * th * ch <= usize::MAX) {
                    Err(CropError::InvalidArgument)
                } else {
                    Ok(spec_unit_slab(w, h, ch, data, cw, tw, th))
                },
            },
        }
    }
}

/// Crop and resize one image from its raw container bytes: check the
/// path's extension, decode, compute the crop window, extract it and
/// resize to the target with nearest-neighbor sampling.
///
/// One unit of the batch dispatch; only here may the target width and
/// height differ from each other.
pub fn crop_and_resize(
    path: &Vec<u8>,
    bytes: &Vec<u8>,
    scale: Frac,
    x_crop: Frac,
    y_crop: Frac,
    max_img_percent: Frac,
    resize_width: u32,
    resize_height: u32,
) -> (r: Result<PixelBuffer, CropError>)
    requires
        scale.wf(),
        x_crop.wf(),
        y_crop.wf(),
        max_img_percent.wf(),
    ensures
        r is Ok <==> spec_unit_result(
            path@,
            bytes@,
            scale,
            x_crop,
            y_crop,
            max_img_percent,
            resize_width,
            resize_height,
        ) is Ok,
        r is Err ==> spec_unit_result(
            path@,
            bytes@,
            scale,
            x_crop,
            y_crop,
            max_img_percent,
            resize_width,
            resize_height,
        ) == Err::<Seq<u8>, CropError>(r->Err_0),
        r is Ok ==> ({
            let out = r->Ok_0;
            &&& out.data@ == spec_unit_result(
                path@,
                bytes@,
                scale,
                x_crop,
                y_crop,
                max_img_percent,
                resize_width,
                resize_height,
            )->Ok_0
            &&& out.wf()
            &&& out.width == resize_width
            &&& out.height == resize_height
            &&& out.channels == image_decode(bytes@)->Some_0.2
        }),
{
    if get_image_format(path.as_slice()).is_err() {
        return Err(CropError::DecodeFailure);
    }
    let decoded = match vec_to_image(bytes) {
        Ok(pb) => pb,
        Err(e) => {
            return Err(e);
        },
    };
    let window = match compute_crop(
        decoded.width,
        decoded.height,
        scale,
        x_crop,
        y_crop,
        max_img_percent,
    ) {
        Ok(w) => w,
        Err(e) => {
            return Err(e);
        },
    };
    let cropped = match crop_region(&decoded, &window) {
        Ok(c) => c,
        Err(e) => {
            return Err(e);
        },
    };
    let out = match resize_nearest(&cropped, resize_width, resize_height) {
        Ok(o) => o,
        Err(e) => {
            return Err(e);
        },
    };
    proof {
        let w = decoded.width;
        let h = decoded.height;
        let ch = decoded.channels;
        let data = decoded.data@;
        let tw = resize_width;
        let th = resize_height;
        let slab = spec_unit_slab(w, h, ch, data, window, tw, th);
        let rowlen = (tw * ch) as int;
        assert(out.data@.len() == tw * th * ch) by {
            assert(tw as int * th as int * ch as int == out.width as int * out.height as int
                * out.channels as int) by (nonlinear_arith)
                requires
                    out.width == tw,
                    out.height == th,
                    out.channels == ch,
            ;
        }
        assert forall|k: int| 0 <= k < out.data@.len() implies out.data@[k] == slab[k] by {
            assert(1 <= rowlen && (rowlen as int) * (th as int) == tw * th * ch)
                by (nonlinear_arith)
                requires
                    rowlen == tw as int * ch as int,
                    1 <= tw,
                    1 <= th,
                    1 <= ch,
            ;
            lemma_multiply_divide_lt(k, rowlen, th as int);
            lemma_mod_bound(k, rowlen);
            let j = k / rowlen;
            let rem = k % rowlen;
            lemma_div_pos_is_pos(k, rowlen);
            assert(rem < (ch as int) * (tw as int)) by (nonlinear_arith)
                requires
                    rem < rowlen,
                    rowlen == tw as int * ch as int,
            ;
            lemma_multiply_divide_lt(rem, ch as int, tw as int);
            lemma_mod_bound(rem, ch as int);
            lemma_div_pos_is_pos(rem, ch as int);
            let i = rem / (ch as int);
            let c = rem % (ch as int);
            lemma_fundamental_div_mod(k, rowlen);
            lemma_fundamental_div_mod(rem, ch as int);
            assert(k == (j * tw + i) * ch + c) by (nonlinear_arith)
                requires
                    k == rowlen * j + rem,
                    rem == (ch as int) * i + c,
                    rowlen == tw as int * ch as int,
            ;
            lemma_scaled_index_bound(i, window.width as int, tw as int);
            lemma_scaled_index_bound(j, window.height as int, th as int);
            let sx = i * window.width / (tw as int);
            let sy = j * window.height / (th as int);
            assert(out.pixel_byte(i, j, c) == cropped.pixel_byte(sx, sy, c));
            assert(cropped.pixel_byte(sx, sy, c) == decoded.pixel_byte(
                window.x + sx,
                window.y + sy,
                c,
            ));
        }
        assert(out.data@ =~= slab);
    }
    Ok(out)
}

/// What unit `k` of a batch produces: `IoFailure` for an unreadable
/// path, the unit pipeline's own error, `ContractViolation` for a slab
/// that does not match the stride, or the slab itself.
pub open spec fn spec_unit_outcome(job: Job, contents: Seq<Option<Vec<u8>>>, k: int) -> Result<
    Seq<u8>,
    CropError,
> {
    match contents[k] {
        None => Err(CropError::IoFailure),
        Some(bytes) => match spec_unit_result(
            job.paths@[k]@,
            bytes@,
            job.scales@[k],
            job.xs@[k],
            job.ys@[k],
            job.max_img_percent,
            job.window_size,
            job.window_size,
        ) {
            Err(e) => Err(e),
            Ok(slab) => if slab.len() == spec_stride(job.window_size, job.chans) {
                Ok(slab)
            } else {
                Err(CropError::ContractViolation)
            },
        },
    }
}

/// The first failing unit's error at or after index `k`, if any.
pub open spec fn spec_batch_errors(job: Job, contents: Seq<Option<Vec<u8>>>, k: int) -> Result<
    (),
    CropError,
>
    decreases job.length - k,
{
    if k < 0 || k >= job.length {
        Ok(())
    } else {
        match spec_unit_outcome(job, contents, k) {
            Err(e) => Err(e),
            Ok(_) => spec_batch_errors(job, contents, k + 1),
        }
    }
}

/// What a whole dispatch returns: `InvalidArgument` for a malformed
/// batch, else the lowest failing unit's error, else success.
pub open spec fn spec_execute(job: Job, contents: Seq<Option<Vec<u8>>>, dest_len: int) -> Result<
    (),
    CropError,
> {
    if !spec_valid_batch(job, dest_len) {
        Err(CropError::InvalidArgument)
    } else {
        spec_batch_errors(job, contents, 0)
    }
}

/// Scanning for the first error may start past any all-successful prefix.
proof fn lemma_batch_errors_prefix(job: Job, contents: Seq<Option<Vec<u8>>>, k: int)
    requires
        0 <= k <= job.length,
        forall|j: int| 0 <= j < k ==> spec_unit_outcome(job, contents, j) is Ok,
    ensures
        spec_batch_errors(job, contents, 0) == spec_batch_errors(job, contents, k),
    decreases k,
{
    if k > 0 {
        lemma_batch_errors_prefix(job, contents, k - 1);
    }
}

/// The batch stride and every result slot fit inside a destination
/// buffer of exactly `length` strides.
proof fn lemma_stride_bounds(length: int, ws: int, chans: int, dest_len: int)
    by (nonlinear_arith)
    requires
        1 <= length,
        1 <= ws,
        1 <= chans,
        dest_len == length * (ws * ws * chans),
    ensures
        1 <= ws * ws,
        ws * ws <= ws * ws * chans,
        ws * ws * chans <= dest_len,
{
}

/// Result slot `k` of a buffer of `length` slots lies inside it.
proof fn lemma_slot_bound(k: int, length: int, stride: int, dest_len: int)
    by (nonlinear_arith)
    requires
        0 <= k < length,
        1 <= stride,
        dest_len == length * stride,
    ensures
        0 <= k * stride,
        (k + 1) * stride <= dest_len,
{
}

/// Run one whole batch against in-memory file contents (`None` marks a
/// path that could not be read), writing each unit's result slab into
/// the destination buffer at byte offset `k * stride`.
///
/// The batch is validated before any work; on any failure the
/// destination is left untouched and the lowest failing index's error is
/// returned, as `spec_execute` describes.
pub fn execute_job(job: &Job, contents: &Vec<Option<Vec<u8>>>, dest: &mut Vec<u8>) -> (r: Result<
    (),
    CropError,
>)
    requires
        job.fracs_wf(),
        contents@.len() == job.length,
    ensures
        r == spec_execute(*job, contents@, old(dest)@.len() as int),
        r is Err ==> final(dest)@ == old(dest)@,
        r is Ok ==> final(dest)@.len() == old(dest)@.len(),
        r is Ok ==> forall|k: int|
            0 <= k < job.length ==> spec_region(
                final(dest)@,
                k,
                spec_stride(job.window_size, job.chans),
            ) == spec_unit_outcome(*job, contents@, k)->Ok_0,
{
    let dlen = dest.len();
    if !validate_batch(job, dlen) {
        return Err(CropError::InvalidArgument);
    }
    if job.length == 0 {
        return Ok(());
    }
    proof {
        lemma_stride_bounds(
            job.length as int,
            job.window_size as int,
            job.chans as int,
            dlen as int,
        );
    }
    let ws = job.window_size as usize;
    let stride: usize = ws * ws * (job.chans as usize);
    let mut slabs: Vec<Vec<u8>> = Vec::new();
    let mut k: usize = 0;
    while k < job.length
        invariant
            job.fracs_wf(),
            contents@.len() == job.length,
            spec_valid_batch(*job, dlen as int),
            1 <= job.length,
            stride == spec_stride(job.window_size, job.chans),
            1 <= stride,
            k <= job.length,
            slabs@.len() == k,
            forall|j: int|
                0 <= j < k ==> (#[trigger] spec_unit_outcome(*job, contents@, j)) is Ok
                    && slabs@[j]@ == spec_unit_outcome(*job, contents@, j)->Ok_0
                    && slabs@[j]@.len() == stride,
            dest@ == old(dest)@,
            dlen == dest@.len(),
        decreases job.length - k,
    {
        let slab_data = match &contents[k] {
            None => {
                proof {
                    lemma_batch_errors_prefix(*job, contents@, k as int);
                }
                return Err(CropError::IoFailure);
            },
            Some(bytes) => {
                match crop_and_resize(
                    &job.paths[k],
                    bytes,
                    job.scales[k],
                    job.xs[k],
                    job.ys[k],
                    job.max_img_percent,
                    job.window_size,
                    job.window_size,
                ) {
                    Err(e) => {
                        proof {
                            lemma_batch_errors_prefix(*job, contents@, k as int);
                        }
                        return Err(e);
                    },
                    Ok(pb) => pb.data,
                }
            },
        };
        if slab_data.len() != stride {
            proof {
                lemma_batch_errors_prefix(*job, contents@, k as int);
            }
            return Err(CropError::ContractViolation);
        }
        slabs.push(slab_data);
        k += 1;
    }
    proof {
        lemma_batch_errors_prefix(*job, contents@, job.length as int);
    }
    let mut p: usize = 0;
    while p < job.length
        invariant
            contents@.len() == job.length,
            spec_valid_batch(*job, dlen as int),
            1 <= job.length,
            stride == spec_stride(job.window_size, job.chans),
            1 <= stride,
            slabs@.len() == job.length,
            forall|j: int|
                0 <= j < job.length ==> (#[trigger] spec_unit_outcome(*job, contents@, j)) is Ok
                    && slabs@[j]@ == spec_unit_outcome(*job, contents@, j)->Ok_0
                    && slabs@[j]@.len() == stride,
            p <= job.length,
            dest@.len() == old(dest)@.len(),
            dlen == dest@.len(),
            forall|j: int| 0 <= j < p ==> spec_region(dest@, j, stride as int) == slabs@[j]@,
        decreases job.length - p,
    {
        proof {
            lemma_slot_bound(p as int, job.length as int, stride as int, dlen as int);
        }
        let ghost prev = dest@;
        proof {
            assert(spec_unit_outcome(*job, contents@, p as int) is Ok);
        }
        let res = place_slab(dest, p, stride, &slabs[p]);
        proof {
            if res is Err {
                assert(false);
            }
            assert forall|j: int| 0 <= j < p + 1 implies spec_region(dest@, j, stride as int)
                == slabs@[j]@ by {
                lemma_slot_bound(j, job.length as int, stride as int, dlen as int);
                if j < p {
                    lemma_place_region_other(prev, p as int, stride as int, slabs@[p as int]@, j);
                } else {
                    lemma_place_region_self(prev, p as int, stride as int, slabs@[p as int]@);
                }
            }
        }
        p += 1;
    }
    Ok(())
}

} // verus!
