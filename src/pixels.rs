//! Writing decoded RGB pixels into a buffer in the layout the display server
//! takes, resizing first where the image and the surface differ in size.
use vstd::prelude::*;
use fast_image_resize::images::Image;
use fast_image_resize::{FilterType, PixelType, ResizeAlg, ResizeOptions, Resizer};

verus! {

/// A host-memory pixel format.
#[derive(Clone, Copy, Debug, PartialEq, Eq, Structural)]
pub enum ShmFormat {
    /// Four bytes per pixel: blue, green, red, unused.
    Xrgb8888,
    /// Three bytes per pixel: red, green, blue.
    Bgr888,
}

/// The row stride of a host-memory buffer: four bytes a pixel, or three bytes
/// a pixel rounded up to a multiple of twelve.
pub open spec fn stride_spec(format: ShmFormat, width: u32) -> int {
    match format {
        ShmFormat::Xrgb8888 => width as int * 4,
        ShmFormat::Bgr888 => (width as int * 3 + 11) / 12 * 12,
    }
}

/// The row stride of a host-memory buffer `width` pixels wide.
pub fn shm_stride(format: ShmFormat, width: u32) -> (r: u64)
    ensures
        r == stride_spec(format, width),
        format == ShmFormat::Bgr888 ==> r % 12 == 0 && width * 3 <= r < width * 3 + 12,
{
    match format {
        ShmFormat::Xrgb8888 => width as u64 * 4,
        ShmFormat::Bgr888 => (width as u64 * 3 + 11) / 12 * 12,
    }
}

proof fn lemma_row_offsets(r1: int, r2: int, stride: int, c1: int, c2: int, width: int)
    requires
        0 <= r1 < r2,
        0 <= c1 < width,
        0 <= c2 < width,
        width <= stride,
    ensures
        r1 * stride + c1 < r2 * stride + c2,
        r1 * stride + c1 < r2 * stride,
{
    assert(r1 * stride + stride <= r2 * stride) by (nonlinear_arith)
        requires
            r1 < r2,
            0 <= stride,
    ;
}

proof fn lemma_row_step(r: int, h: int, stride: int)
    requires
        0 <= r < h,
        0 <= stride,
    ensures
        0 <= r * stride,
        r * stride + stride <= h * stride,
        (r + 1) * stride == r * stride + stride,
{
    assert(r * stride + stride <= h * stride) by (nonlinear_arith)
        requires
            r < h,
            0 <= stride,
    ;
    assert((r + 1) * stride == r * stride + stride) by (nonlinear_arith);
    assert(0 <= r * stride) by (nonlinear_arith)
        requires
            0 <= r,
            0 <= stride,
    ;
}

/// Row `r`, column `c` of the destination holds row `r`, column `c` of the
/// source for the first `height` rows and `width` columns.
pub open spec fn rows_copied(
    src: Seq<u8>,
    dst: Seq<u8>,
    src_stride: int,
    dst_stride: int,
    width: int,
    height: int,
) -> bool {
    forall|r: int, c: int|
        0 <= r < height && 0 <= c < width ==> #[trigger] dst[r * dst_stride + c] == src[r * src_stride + c]
}

/// Copies `height` rows of `src_stride` bytes into rows `dst_stride` bytes
/// apart.
pub fn copy_pad_stride(src: &[u8], dst: &mut [u8], src_stride: usize, dst_stride: usize, height: usize)
    requires
        src_stride <= dst_stride,
        height * src_stride <= src@.len(),
        height * dst_stride <= old(dst)@.len(),
    ensures
        final(dst)@.len() == old(dst)@.len(),
        rows_copied(src@, final(dst)@, src_stride as int, dst_stride as int, src_stride as int, height as int),
{
    let mut row: usize = 0;
    let mut so: usize = 0;
    let mut dof: usize = 0;
    let slen = src.len();
    let dlen = dst.len();
    while row < height
        invariant
            slen == src@.len(),
            dlen == dst@.len(),
            src_stride <= dst_stride,
            height * src_stride <= src@.len(),
            height * dst_stride <= dst@.len() == old(dst)@.len(),
            row <= height,
            so == row * src_stride,
            dof == row * dst_stride,
            rows_copied(src@, dst@, src_stride as int, dst_stride as int, src_stride as int, row as int),
        decreases height - row,
    {
        let mut c: usize = 0;
        proof {
            lemma_row_step(row as int, height as int, src_stride as int);
            lemma_row_step(row as int, height as int, dst_stride as int);
        }
        while c < src_stride
            invariant
                slen == src@.len(),
                dlen == dst@.len(),
                src_stride <= dst_stride,
                height * src_stride <= src@.len(),
                height * dst_stride <= dst@.len() == old(dst)@.len(),
                row < height,
                so == row * src_stride,
                dof == row * dst_stride,
                so + src_stride <= height * src_stride,
                dof + dst_stride <= height * dst_stride,
                c <= src_stride,
                rows_copied(src@, dst@, src_stride as int, dst_stride as int, src_stride as int, row as int),
                forall|k: int| 0 <= k < c ==> #[trigger] dst@[dof + k] == src@[so + k],
            decreases src_stride - c,
        {
            let ghost before = dst@;
            dst[dof + c] = src[so + c];
            proof {
                assert forall|r: int, k: int| 0 <= r < row && 0 <= k < src_stride implies #[trigger] dst@[r
                    * dst_stride + k] == src@[r * src_stride + k] by {
                    lemma_row_offsets(r, row as int, dst_stride as int, k, c as int, src_stride as int);
                    assert(before[r * dst_stride + k] == src@[r * src_stride + k]);
                }
            }
            c = c + 1;
        }
        proof {
            assert forall|r: int, k: int| 0 <= r < row + 1 && 0 <= k < src_stride implies #[trigger] dst@[r
                * dst_stride + k] == src@[r * src_stride + k] by {
                if r == row {
                    assert(dst@[dof + k] == src@[so + k]);
                }
            }
            lemma_row_step(row as int, height as int, src_stride as int);
            lemma_row_step(row as int, height as int, dst_stride as int);
        }
        row = row + 1;
        so = so + src_stride;
        dof = dof + dst_stride;
    }
}

/// Pixel `p` of the destination is pixel `p` of the RGB source as blue, green,
/// red and an opaque fourth byte, for the first `n` pixels.
pub open spec fn swizzled(src: Seq<u8>, dst: Seq<u8>, n: int) -> bool {
    forall|p: int|
        0 <= p < n ==> {
            &&& #[trigger] dst[4 * p] == src[3 * p + 2]
            &&& dst[4 * p + 1] == src[3 * p + 1]
            &&& dst[4 * p + 2] == src[3 * p]
            &&& dst[4 * p + 3] == 255
        }
}

/// Writes RGB pixels as four-byte pixels in blue, green, red, opaque order.
pub fn swizzle_bgra_from_rgb(src: &[u8], dst: &mut [u8])
    requires
        old(dst)@.len() % 4 == 0,
        src@.len() == old(dst)@.len() / 4 * 3,
    ensures
        final(dst)@.len() == old(dst)@.len(),
        swizzled(src@, final(dst)@, (old(dst)@.len() / 4) as int),
{
    let pixel_count = dst.len() / 4;
    let mut p: usize = 0;
    let mut si: usize = 0;
    let mut di: usize = 0;
    while p < pixel_count
        invariant
            pixel_count == dst@.len() / 4,
            dst@.len() == old(dst)@.len(),
            dst@.len() % 4 == 0,
            src@.len() == pixel_count * 3,
            p <= pixel_count,
            si == 3 * p,
            di == 4 * p,
            swizzled(src@, dst@, p as int),
        decreases pixel_count - p,
    {
        let ghost before = dst@;
        dst[di] = src[si + 2];
        dst[di + 1] = src[si + 1];
        dst[di + 2] = src[si];
        dst[di + 3] = 255u8;
        assert forall|q: int| 0 <= q < p + 1 implies {
            &&& #[trigger] dst@[4 * q] == src@[3 * q + 2]
            &&& dst@[4 * q + 1] == src@[3 * q + 1]
            &&& dst@[4 * q + 2] == src@[3 * q]
            &&& dst@[4 * q + 3] == 255
        } by {
            if q < p {
                assert(before[4 * q] == src@[3 * q + 2]);
            }
        }
        p = p + 1;
        si = si + 3;
        di = di + 4;
    }
}

/// The destination holds the RGB image of `width` by `height` in `format`
/// with rows `stride` bytes apart.
pub open spec fn written(img: Seq<u8>, dst: Seq<u8>, width: int, height: int, stride: int, format: ShmFormat) -> bool {
    match format {
        ShmFormat::Bgr888 => rows_copied(img, dst, width * 3, stride, width * 3, height),
        ShmFormat::Xrgb8888 => swizzled(img, dst, width * height),
    }
}

/// Why pixels could not be written.
#[derive(Clone, Copy, Debug, PartialEq, Eq, Structural)]
pub enum PixelError {
    /// The buffer is smaller than the surface's rows.
    BufferTooSmall,
    /// The resampler refused the image.
    ResizeFailed,
}

/// The row stride fits the format: exactly four bytes a pixel for four-byte
/// pixels, at least three bytes a pixel for three-byte pixels.
pub open spec fn stride_fits(format: ShmFormat, width: u32, stride: usize) -> bool {
    match format {
        ShmFormat::Xrgb8888 => stride == width as int * 4,
        ShmFormat::Bgr888 => stride >= width as int * 3,
    }
}

proof fn lemma_size(width: u32, height: u32, bytes: int)
    requires
        bytes == 3 || bytes == 4,
    ensures
        width as int * height as int * bytes == (width as int * bytes) * height as int,
        width as int * height as int * bytes <= 0xffff_ffff * 0xffff_ffff * 4,
        0 <= width as int * height as int,
{
    assert(width as int * height as int * bytes == (width as int * bytes) * height as int) by (nonlinear_arith);
    assert(width as int * height as int <= 0xffff_ffff * 0xffff_ffff) by (nonlinear_arith)
        requires
            width <= 0xffff_ffff,
            height <= 0xffff_ffff,
    ;
    assert(0 <= width as int * height as int) by (nonlinear_arith);
}

/// Writes an RGB image of exactly the surface's size into `dst` in `format`.
pub fn write_pixels(
    img: &[u8],
    width: u32,
    height: u32,
    stride: usize,
    format: ShmFormat,
    dst: &mut [u8],
) -> (r: Result<(), PixelError>)
    requires
        img@.len() == width as int * height as int * 3,
        stride_fits(format, width, stride),
    ensures
        final(dst)@.len() == old(dst)@.len(),
        r is Ok <==> stride as int * height as int <= old(dst)@.len(),
        r is Ok ==> written(img@, final(dst)@, width as int, height as int, stride as int, format),
        r is Err ==> r == Err::<(), PixelError>(PixelError::BufferTooSmall) && final(dst)@ == old(dst)@,
{
    proof {
        lemma_size(width, height, 3);
        lemma_size(width, height, 4);
    }
    proof {
        assert(stride as int * height as int <= 0xffff_ffff_ffff_ffff * 0xffff_ffff) by (nonlinear_arith)
            requires
                stride <= 0xffff_ffff_ffff_ffff,
                height <= 0xffff_ffff,
        ;
    }
    let size: u128 = stride as u128 * height as u128;
    if size > dst.len() as u128 {
        return Err(PixelError::BufferTooSmall);
    }
    let row_len: usize = width as usize * 3;
    match format {
        ShmFormat::Bgr888 => {
            assert(height as int * stride as int == stride as int * height as int) by (nonlinear_arith);
            assert(height as int * row_len as int == row_len as int * height as int) by (nonlinear_arith);
            copy_pad_stride(img, dst, row_len, stride, height as usize);
        },
        ShmFormat::Xrgb8888 => {
            assert(width as int * height as int * 4 == stride as int * height as int);
            assert(stride as int * height as int <= dst@.len());
            let dlen = dst.len();
            let n: usize = width as usize * height as usize;
            assert(n * 4 <= dlen);
            let ghost before = dst@;
            let mut region: Vec<u8> = Vec::new();
            let mut k: usize = 0;
            while k < n * 4
                invariant
                    n == width as int * height as int,
                    n * 4 <= dlen,
                    dlen == before.len(),
                    k <= n * 4,
                    region@.len() == k,
                decreases n * 4 - k,
            {
                region.push(0u8);
                k = k + 1;
            }
            swizzle_bgra_from_rgb(img, region.as_mut_slice());
            let mut k: usize = 0;
            while k < n * 4
                invariant
                    n == width as int * height as int,
                    n * 4 <= dlen,
                    dlen == dst@.len(),
                    dst@.len() == before.len(),
                    region@.len() == n * 4,
                    swizzled(img@, region@, n as int),
                    k <= n * 4,
                    forall|i: int| 0 <= i < k ==> dst@[i] == region@[i],
                decreases n * 4 - k,
            {
                dst[k] = region[k];
                k = k + 1;
            }
            assert forall|p: int| 0 <= p < n implies {
                &&& #[trigger] dst@[4 * p] == img@[3 * p + 2]
                &&& dst@[4 * p + 1] == img@[3 * p + 1]
                &&& dst@[4 * p + 2] == img@[3 * p]
                &&& dst@[4 * p + 3] == 255
            } by {
                assert(region@[4 * p] == img@[3 * p + 2]);
            }
        },
    }
    Ok(())
}

/// Relies on fast_image_resize's `Resizer::resize` with Lanczos3 convolution
/// into a new RGB image: the image it fills holds `dst_width * dst_height`
/// pixels of three bytes.
#[verifier::external_body]
fn resize_rgb(src: Vec<u8>, src_width: u32, src_height: u32, dst_width: u32, dst_height: u32) -> (r: Option<
    Vec<u8>,
>)
    requires
        src@.len() == src_width as int * src_height as int * 3,
    ensures
        r matches Some(v) ==> v@.len() == dst_width as int * dst_height as int * 3,
{
    let src_image = Image::from_vec_u8(src_width, src_height, src, PixelType::U8x3).ok()?;
    let mut dst_image = Image::new(dst_width, dst_height, PixelType::U8x3);
    let options = ResizeOptions::new().fit_into_destination(None).resize_alg(
        ResizeAlg::Convolution(FilterType::Lanczos3),
    );
    Resizer::new().resize(&src_image, &mut dst_image, &options).ok()?;
    Some(dst_image.into_vec())
}

/// Writes the result of resampling into `dst`: the resampled image if there is
/// one, else `ResizeFailed` with `dst` untouched.
pub fn write_resized(
    resized: Option<Vec<u8>>,
    width: u32,
    height: u32,
    stride: usize,
    format: ShmFormat,
    dst: &mut [u8],
) -> (r: Result<(), PixelError>)
    requires
        resized matches Some(v) ==> v@.len() == width as int * height as int * 3,
        stride_fits(format, width, stride),
    ensures
        final(dst)@.len() == old(dst)@.len(),
        resized is None ==> r == Err::<(), PixelError>(PixelError::ResizeFailed) && final(dst)@ == old(dst)@,
        resized matches Some(v) ==> {
            &&& (r is Ok <==> stride as int * height as int <= old(dst)@.len())
            &&& r is Ok ==> written(v@, final(dst)@, width as int, height as int, stride as int, format)
            &&& r is Err ==> r == Err::<(), PixelError>(PixelError::BufferTooSmall) && final(dst)@ == old(dst)@
        },
{
    match resized {
        Some(img) => write_pixels(img.as_slice(), width, height, stride, format, dst),
        None => Err(PixelError::ResizeFailed),
    }
}

/// Writes a decoded RGB image into a surface buffer of `surface_width` by
/// `surface_height` pixels, resizing it first if its size differs.
pub fn load_pixels(
    rgb: Vec<u8>,
    image_width: u32,
    image_height: u32,
    surface_width: u32,
    surface_height: u32,
    surface_stride: usize,
    format: ShmFormat,
    dst: &mut [u8],
) -> (r: Result<(), PixelError>)
    requires
        rgb@.len() == image_width as int * image_height as int * 3,
        stride_fits(format, surface_width, surface_stride),
    ensures
        final(dst)@.len() == old(dst)@.len(),
        surface_stride as int * surface_height as int > old(dst)@.len() ==> r == Err::<(), PixelError>(
            PixelError::BufferTooSmall,
        ) && final(dst)@ == old(dst)@,
        surface_stride as int * surface_height as int <= old(dst)@.len() && image_width == surface_width
            && image_height == surface_height ==> r is Ok && written(
            rgb@,
            final(dst)@,
            surface_width as int,
            surface_height as int,
            surface_stride as int,
            format,
        ),
        surface_stride as int * surface_height as int <= old(dst)@.len() && !(image_width == surface_width
            && image_height == surface_height) ==> {
            &&& r is Ok ==> exists|v: Seq<u8>|
                v.len() == surface_width as int * surface_height as int * 3 && #[trigger] written(
                    v,
                    final(dst)@,
                    surface_width as int,
                    surface_height as int,
                    surface_stride as int,
                    format,
                )
            &&& r is Err ==> r == Err::<(), PixelError>(PixelError::ResizeFailed) && final(dst)@ == old(dst)@
        },
{
    proof {
        lemma_size(surface_width, surface_height, 3);
        assert(surface_stride as int * surface_height as int <= 0xffff_ffff_ffff_ffff * 0xffff_ffff)
            by (nonlinear_arith)
            requires
                surface_stride <= 0xffff_ffff_ffff_ffff,
                surface_height <= 0xffff_ffff,
        ;
    }
    let size: u128 = surface_stride as u128 * surface_height as u128;
    if size > dst.len() as u128 {
        return Err(PixelError::BufferTooSmall);
    }
    if image_width == surface_width && image_height == surface_height {
        return write_pixels(rgb.as_slice(), surface_width, surface_height, surface_stride, format, dst);
    }
    let resized = resize_rgb(rgb, image_width, image_height, surface_width, surface_height);
    write_resized(resized, surface_width, surface_height, surface_stride, format, dst)
}

} // verus!
