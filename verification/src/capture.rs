//! The part of a screen frame where the formula shows, turned into an RGBA
//! image, and that image encoded as a BMP file for the text recogniser.
use vstd::prelude::*;

verus! {

/// Left edge of the region where the formula shows, in screen pixels.
pub const CAPTURE_X: usize = 1580;

/// Top edge of the region where the formula shows.
pub const CAPTURE_Y: usize = 400;

/// Width of the region where the formula shows.
pub const CAPTURE_WIDTH: usize = 300;

/// Height of the region where the formula shows.
pub const CAPTURE_HEIGHT: usize = 110;

/// Where the pixel at `(x + col, y + row)` starts in a BGRA frame whose rows
/// are `stride` bytes apart.
pub open spec fn frame_offset(stride: int, x: int, y: int, row: int, col: int) -> int {
    (y + row) * stride + (x + col) * 4
}

/// Where the pixel at `(col, row)` starts in an RGBA image `w` pixels wide.
pub open spec fn image_offset(w: int, row: int, col: int) -> int {
    (row * w + col) * 4
}

/// Whether every pixel of the `w` by `h` region at `(x, y)` lies in a frame of
/// `len` bytes: the last one does, since offsets grow with row and column.
pub open spec fn region_in_frame(len: int, stride: int, x: int, y: int, w: int, h: int) -> bool {
    w == 0 || h == 0 || frame_offset(stride, x, y, h - 1, w - 1) + 3 <= len
}

/// Whether the pixel at `(col, row)` of `out` is the frame's pixel at
/// `(x + col, y + row)`, its blue, green and red swapped into red, green and
/// blue order, and opaque.
pub open spec fn pixel_copied(
    out: Seq<u8>,
    frame: Seq<u8>,
    stride: int,
    x: int,
    y: int,
    w: int,
    row: int,
    col: int,
) -> bool {
    let o = image_offset(w, row, col);
    let f = frame_offset(stride, x, y, row, col);
    &&& out[o] == frame[f + 2]
    &&& out[o + 1] == frame[f + 1]
    &&& out[o + 2] == frame[f]
    &&& out[o + 3] == 255
}

proof fn lemma_earlier_pixel(w: int, r: int, c: int, row: int, col: int)
    requires
        0 <= c < w,
        0 <= r,
        0 <= col,
        r < row || (r == row && c < col),
    ensures
        image_offset(w, r, c) + 4 <= image_offset(w, row, col),
{
    assert(r * w + c + 1 <= row * w + col) by (nonlinear_arith)
        requires
            0 <= c < w,
            0 <= r,
            0 <= col,
            r < row || (r == row && c < col),
    ;
}

proof fn lemma_offset_in_frame(stride: int, x: int, y: int, w: int, h: int, row: int, col: int)
    requires
        0 <= stride,
        0 <= x,
        0 <= y,
        0 <= row < h,
        0 <= col < w,
    ensures
        frame_offset(stride, x, y, row, col) <= frame_offset(stride, x, y, h - 1, w - 1),
        0 <= frame_offset(stride, x, y, row, col),
{
    assert((y + row) * stride <= (y + h - 1) * stride) by (nonlinear_arith)
        requires
            0 <= stride,
            0 <= y + row <= y + h - 1,
    ;
    assert(0 <= (y + row) * stride) by (nonlinear_arith)
        requires
            0 <= stride,
            0 <= y + row,
    ;
}

/// The `w` by `h` region at `(x, y)` of a BGRA frame whose rows are `stride`
/// bytes apart, as an opaque RGBA image stored row by row.
pub fn crop_bgra_region(
    frame: &[u8],
    stride: usize,
    x: usize,
    y: usize,
    w: usize,
    h: usize,
) -> (out: Vec<u8>)
    requires
        region_in_frame(frame@.len() as int, stride as int, x as int, y as int, w as int, h as int),
        y + h <= usize::MAX,
    ensures
        out@.len() == w * h * 4,
        forall|row: int, col: int|
            0 <= row < h && 0 <= col < w ==> #[trigger] pixel_copied(
                out@,
                frame@,
                stride as int,
                x as int,
                y as int,
                w as int,
                row,
                col,
            ),
{
    let mut out: Vec<u8> = Vec::new();
    let mut row: usize = 0;
    while row < h
        invariant
            row <= h,
            y + h <= usize::MAX,
            region_in_frame(frame@.len() as int, stride as int, x as int, y as int, w as int, h as int),
            out@.len() == image_offset(w as int, row as int, 0),
            forall|r: int, c: int|
                0 <= r < row && 0 <= c < w ==> #[trigger] pixel_copied(
                    out@,
                    frame@,
                    stride as int,
                    x as int,
                    y as int,
                    w as int,
                    r,
                    c,
                ),
        decreases h - row,
    {
        let mut col: usize = 0;
        while col < w
            invariant
                row < h,
                col <= w,
                y + h <= usize::MAX,
                region_in_frame(frame@.len() as int, stride as int, x as int, y as int, w as int, h as int),
                out@.len() == image_offset(w as int, row as int, col as int),
                forall|r: int, c: int|
                    (0 <= r < row && 0 <= c < w) || (r == row && 0 <= c < col)
                        ==> #[trigger] pixel_copied(
                        out@,
                        frame@,
                        stride as int,
                        x as int,
                        y as int,
                        w as int,
                        r,
                        c,
                    ),
            decreases w - col,
        {
            proof {
                lemma_offset_in_frame(stride as int, x as int, y as int, w as int, h as int, row as int, col as int);
                assert(frame_offset(stride as int, x as int, y as int, row as int, col as int) + 3 <= frame@.len());
                assert(0 <= (y + row) * stride) by (nonlinear_arith)
                    requires 0 <= y + row, 0 <= stride;
                assert(frame@.len() == frame.len());
                assert((y + row) * stride + (x + col) * 4 + 3 <= frame.len());
            }
            let offset = (y + row) * stride + (x + col) * 4;
            let b = frame[offset];
            let g = frame[offset + 1];
            let r = frame[offset + 2];
            let ghost before = out@;
            out.push(r);
            out.push(g);
            out.push(b);
            out.push(255u8);
            proof {
                assert forall|rr: int, cc: int|
                    (0 <= rr < row && 0 <= cc < w) || (rr == row && 0 <= cc < col + 1)
                        implies #[trigger] pixel_copied(
                        out@,
                        frame@,
                        stride as int,
                        x as int,
                        y as int,
                        w as int,
                        rr,
                        cc,
                    ) by {
                    if rr == row && cc == col {
                    } else {
                        lemma_earlier_pixel(w as int, rr, cc, row as int, col as int);
                        assert(pixel_copied(before, frame@, stride as int, x as int, y as int, w as int, rr, cc));
                    }
                }
                assert(image_offset(w as int, row as int, col as int + 1) == image_offset(w as int, row as int, col as int) + 4);
            }
            col = col + 1;
        }
        proof {
            assert(image_offset(w as int, row as int, w as int) == image_offset(w as int, row as int + 1, 0)) by (nonlinear_arith);
        }
        row = row + 1;
    }
    proof {
        assert(image_offset(w as int, h as int, 0) == w * h * 4) by (nonlinear_arith);
    }
    out
}

/// The formula region of a screen frame of `frame_height` rows in BGRA order
/// (rows as long as the frame divided evenly by its height), as an RGBA image of
/// `CAPTURE_WIDTH` by `CAPTURE_HEIGHT` pixels.
pub fn capture_region(frame: &[u8], frame_height: usize) -> (out: Vec<u8>)
    requires
        frame_height > 0,
        region_in_frame(
            frame@.len() as int,
            frame@.len() as int / frame_height as int,
            CAPTURE_X as int,
            CAPTURE_Y as int,
            CAPTURE_WIDTH as int,
            CAPTURE_HEIGHT as int,
        ),
    ensures
        out@.len() == CAPTURE_WIDTH * CAPTURE_HEIGHT * 4,
        forall|row: int, col: int|
            0 <= row < CAPTURE_HEIGHT && 0 <= col < CAPTURE_WIDTH ==> #[trigger] pixel_copied(
                out@,
                frame@,
                frame@.len() as int / frame_height as int,
                CAPTURE_X as int,
                CAPTURE_Y as int,
                CAPTURE_WIDTH as int,
                row,
                col,
            ),
{
    let stride = frame.len() / frame_height;
    crop_bgra_region(frame, stride, CAPTURE_X, CAPTURE_Y, CAPTURE_WIDTH, CAPTURE_HEIGHT)
}

/// Whether `capture_region` can read a frame of `frame_len` bytes and
/// `frame_height` rows: the rows are not empty and the region lies in the frame.
pub fn capture_fits(frame_len: usize, frame_height: usize) -> (ok: bool)
    ensures
        ok == (frame_height > 0 && region_in_frame(
            frame_len as int,
            frame_len as int / frame_height as int,
            CAPTURE_X as int,
            CAPTURE_Y as int,
            CAPTURE_WIDTH as int,
            CAPTURE_HEIGHT as int,
        )),
{
    if frame_height == 0 {
        return false;
    }
    let stride = frame_len / frame_height;
    let last_row = CAPTURE_Y + CAPTURE_HEIGHT - 1;
    let last_col = CAPTURE_X + CAPTURE_WIDTH - 1;
    match last_row.checked_mul(stride) {
        None => {
            proof {
                assert(frame_offset(stride as int, CAPTURE_X as int, CAPTURE_Y as int, CAPTURE_HEIGHT - 1, CAPTURE_WIDTH - 1) > frame_len) by (nonlinear_arith)
                    requires
                        last_row * stride > usize::MAX,
                        frame_len <= usize::MAX,
                        last_row == CAPTURE_Y + CAPTURE_HEIGHT - 1,
                        frame_offset(stride as int, CAPTURE_X as int, CAPTURE_Y as int, CAPTURE_HEIGHT - 1, CAPTURE_WIDTH - 1) == last_row * stride + (CAPTURE_X + CAPTURE_WIDTH - 1) * 4;
            }
            false
        },
        Some(row_start) => {
            let end = row_start as u128 + (last_col as u128) * 4 + 3;
            end <= frame_len as u128
        },
    }
}

#[verifier::external_type_specification]
#[verifier::external_body]
pub struct ExImageError(image::ImageError);

/// The BMP file that the `image` crate writes for a `width` by `height` image
/// of 8-bit RGBA pixels.
pub uninterp spec fn bmp_rgba8_encoding(width: u32, height: u32, pixels: Seq<u8>) -> Seq<u8>;

/// Whether the BMP encoder of the `image` crate accepts a `width` by `height`
/// RGBA image: its row size, and its file size (pixels after a 14-byte file
/// header and a 108-byte version 4 info header), fit a `u32`.
pub open spec fn bmp_size_fits(width: u32, height: u32) -> bool {
    width * 4 <= u32::MAX && 122 + width * 4 * height <= u32::MAX
}

/// Calls `image::write_buffer_with_format` with the BMP format and RGBA8 pixels,
/// writing into a fresh buffer. Trusted, as the encoder's source shows it: it
/// fails exactly when the sizes do not fit a `u32` (`bmp_size_fits`); when it
/// succeeds, the buffer is the encoding of the arguments, starts with the
/// signature `BM`, and holds the 122 header bytes and four bytes per pixel (rows
/// of four-byte pixels need no padding). It panics unless the buffer holds
/// exactly `width * height` pixels, which `requires` rules out. Nothing is said
/// of which error it returns.
#[verifier::external_body]
fn write_bmp_rgba8(pixels: &[u8], width: u32, height: u32) -> (r: Result<Vec<u8>, image::ImageError>)
    requires
        pixels@.len() == width * height * 4,
    ensures
        r is Ok <==> bmp_size_fits(width, height),
        r matches Ok(bytes) ==> {
            &&& bytes@ == bmp_rgba8_encoding(width, height, pixels@)
            &&& bytes@.len() == 122 + width * height * 4
            &&& bytes@[0] == 66u8
            &&& bytes@[1] == 77u8
        },
{
    let mut bytes: Vec<u8> = Vec::new();
    let written = image::write_buffer_with_format(
        &mut std::io::Cursor::new(&mut bytes),
        pixels,
        width,
        height,
        image::ExtendedColorType::Rgba8,
        image::ImageFormat::Bmp,
    );
    match written {
        Ok(()) => Ok(bytes),
        Err(e) => Err(e),
    }
}

/// Why an image could not be prepared for the text recogniser.
#[derive(Clone, Copy, Debug, PartialEq, Eq, Structural)]
pub enum CaptureError {
    /// The image is too large for a BMP file.
    Encoding,
}

/// The BMP file of a `width` by `height` RGBA image, as the text recogniser reads it.
pub fn encode_bmp(pixels: &Vec<u8>, width: u32, height: u32) -> (r: Result<Vec<u8>, CaptureError>)
    requires
        pixels@.len() == width * height * 4,
    ensures
        r is Ok <==> bmp_size_fits(width, height),
        r matches Ok(bytes) ==> {
            &&& bytes@ == bmp_rgba8_encoding(width, height, pixels@)
            &&& bytes@.len() == 122 + width * height * 4
            &&& bytes@[0] == 66u8
            &&& bytes@[1] == 77u8
        },
        r matches Err(e) ==> e == CaptureError::Encoding,
{
    match write_bmp_rgba8(pixels.as_slice(), width, height) {
        Ok(bytes) => Ok(bytes),
        Err(_) => Err(CaptureError::Encoding),
    }
}

/// A copied pixel: the output pixel at `(col, row)` of an image `w` wide starts at
/// byte `4 * (row * w + col)`; its red is the byte 2 past the frame pixel at
/// `(x + col, y + row)`, which starts at byte `(y + row) * stride + 4 * (x + col)`,
/// its green byte 1, its blue byte 0, and its alpha is 255.
pub proof fn law_pixel_copied(
    out: Seq<u8>,
    frame: Seq<u8>,
    stride: int,
    x: int,
    y: int,
    w: int,
    row: int,
    col: int,
)
    requires
        pixel_copied(out, frame, stride, x, y, w, row, col),
    ensures
        out[4 * (row * w + col)] == frame[(y + row) * stride + 4 * (x + col) + 2],
        out[4 * (row * w + col) + 1] == frame[(y + row) * stride + 4 * (x + col) + 1],
        out[4 * (row * w + col) + 2] == frame[(y + row) * stride + 4 * (x + col)],
        out[4 * (row * w + col) + 3] == 255,
{
}

} // verus!
