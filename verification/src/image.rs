//! The pixel buffer and its regions of interest.

use crate::color::Color;
use vstd::prelude::*;
use vstd::slice::slice_subrange;

verus! {

/// Why an image could not be built.
#[derive(Clone, Copy, Debug, PartialEq, Eq, Structural)]
pub enum ImageError {
    /// The bytes do not start with the bitmap signature.
    InvalidSignature,
    /// The number of pixels given is not width times height.
    DimensionMismatch,
}

/// What an image is: its dimensions and its pixels in row-major order, top
/// row first.
pub struct ImageView {
    pub width: nat,
    pub height: nat,
    pub pixels: Seq<Color>,
}

impl ImageView {
    /// There is exactly one pixel for each position of the grid.
    pub open spec fn wf(self) -> bool {
        self.pixels.len() == self.width * self.height
    }

    /// The image of the given size whose pixels all have one color.
    pub open spec fn uniform(width: nat, height: nat, color: Color) -> ImageView {
        ImageView { width, height, pixels: Seq::new(width * height, |i: int| color) }
    }
}

/// The product of two 32-bit numbers fits in 64 bits.
proof fn lemma_area_bound(width: u32, height: u32)
    ensures
        0 <= width * height <= 0xFFFF_FFFE_0000_0001,
{
    assert(0 <= width * height <= 0xFFFF_FFFF * 0xFFFF_FFFF) by (nonlinear_arith)
        requires
            0 <= width <= 0xFFFF_FFFF,
            0 <= height <= 0xFFFF_FFFF,
    ;
}

/// A width by height grid of colors.
#[derive(Clone)]
pub struct Image {
    w: u32,
    h: u32,
    data: Vec<Color>,
}

impl View for Image {
    type V = ImageView;

    closed spec fn view(&self) -> ImageView {
        ImageView { width: self.w as nat, height: self.h as nat, pixels: self.data@ }
    }
}

impl Image {
    /// The invariant of every image: it holds width times height pixels.
    /// The constructors establish it, and the slice that `data_mut` hands
    /// out cannot change its length.
    pub open spec fn wf(&self) -> bool {
        self@.wf()
    }

    /// A new image, opaque black all over.
    pub fn new(width: u32, height: u32) -> (image: Image)
        requires
            width * height <= usize::MAX,
        ensures
            image.wf(),
            image@ == ImageView::uniform(width as nat, height as nat, Color::spec_rgb(0, 0, 0)),
    {
        Image::from_color(width, height, Color::rgb(0, 0, 0))
    }

    /// A new image filled whole with one color.
    pub fn from_color(width: u32, height: u32, color: Color) -> (image: Image)
        requires
            width * height <= usize::MAX,
        ensures
            image.wf(),
            image@ == ImageView::uniform(width as nat, height as nat, color),
    {
        let count: usize = width as usize * height as usize;
        let data: Vec<Color> = vec![color; count];
        assert(data@ =~= Seq::new(width as nat * height as nat, |i: int| color));
        Image { w: width, h: height, data }
    }

    /// Builds an image from its pixels, given in row-major order. This
    /// succeeds exactly when there are width times height of them.
    pub fn from_data(width: u32, height: u32, data: Vec<Color>) -> (result: Result<
        Image,
        ImageError,
    >)
        ensures
            data@.len() == width * height ==> result is Ok && result->Ok_0.wf() && result->Ok_0@
                == (ImageView { width: width as nat, height: height as nat, pixels: data@ }),
            data@.len() != width * height ==> result == Err::<Image, ImageError>(
                ImageError::DimensionMismatch,
            ),
    {
        proof {
            lemma_area_bound(width, height);
        }
        let expected: u64 = (width as u64) * (height as u64);
        if data.len() as u64 == expected {
            Ok(Image { w: width, h: height, data })
        } else {
            Err(ImageError::DimensionMismatch)
        }
    }

    /// The empty image: no columns, no rows, no pixels.
    pub fn default() -> (image: Image)
        ensures
            image.wf(),
            image@ == (ImageView { width: 0, height: 0, pixels: Seq::empty() }),
    {
        let image = Image::new(0, 0);
        assert(image@.pixels =~= Seq::empty());
        image
    }

    /// The number of columns.
    pub fn width(&self) -> (width: u32)
        ensures
            width == self@.width,
    {
        self.w
    }

    /// The number of rows.
    pub fn height(&self) -> (height: u32)
        ensures
            height == self@.height,
    {
        self.h
    }

    /// The pixels, row after row.
    pub fn data(&self) -> (pixels: &[Color])
        ensures
            pixels@ == self@.pixels,
    {
        self.data.as_slice()
    }

    /// The pixels, open to change. The dimensions stay, and the image holds
    /// whatever the slice holds when the borrow ends.
    pub fn data_mut(&mut self) -> (pixels: &mut [Color])
        ensures
            pixels@ == old(self)@.pixels,
            final(self)@ == (ImageView { pixels: final(pixels)@, ..old(self)@ }),
    {
        self.data.as_mut_slice()
    }

    /// Gives up the image for its pixels.
    pub fn into_data(self) -> (pixels: Vec<Color>)
        ensures
            pixels@ == self@.pixels,
    {
        self.data
    }

    /// The part of the image inside the rectangle of size `w` by `h` at
    /// `(x, y)`. A rectangle that reaches past an edge is cut at the edge,
    /// and one that starts past an edge comes out empty.
    pub fn roi<'a>(&'a self, x: u32, y: u32, w: u32, h: u32) -> (roi: ImageRoi<'a>)
        requires
            self.wf(),
        ensures
            roi.wf(),
            roi@ == RoiView::clamped(self@, x as nat, y as nat, w as nat, h as nat),
            roi@.x + roi@.width <= self@.width,
            roi@.y + roi@.height <= self@.height,
            x >= self@.width || y >= self@.height ==> roi@.width * roi@.height == 0,
    {
        let x1: u32 = if x < self.w { x } else { self.w };
        let y1: u32 = if y < self.h { y } else { self.h };
        let right: u64 = x as u64 + w as u64;
        let below: u64 = y as u64 + h as u64;
        let x2: u32 = if right < self.w as u64 { right as u32 } else { self.w };
        let y2: u32 = if below < self.h as u64 { below as u32 } else { self.h };
        let x2: u32 = if x2 < x1 { x1 } else { x2 };
        let y2: u32 = if y2 < y1 { y1 } else { y2 };
        proof {
            if x >= self.w {
                assert((x2 - x1) * (y2 - y1) == 0) by (nonlinear_arith)
                    requires
                        x2 - x1 == 0,
                ;
            }
            if y >= self.h {
                assert((x2 - x1) * (y2 - y1) == 0) by (nonlinear_arith)
                    requires
                        y2 - y1 == 0,
                ;
            }
        }
        ImageRoi { x: x1, y: y1, w: x2 - x1, h: y2 - y1, image: self }
    }

    /// What a renderer is to be given to show the whole image with its top
    /// left corner at `(x, y)`.
    pub fn draw<'a>(&'a self, x: i32, y: i32) -> (blit: Blit<'a>)
        ensures
            blit.x == x,
            blit.y == y,
            blit.w == self@.width,
            blit.h == self@.height,
            blit.pixels@ == self@.pixels,
    {
        Blit { x, y, w: self.w, h: self.h, pixels: self.data.as_slice() }
    }
}

/// One call of a renderer: show `pixels`, read as rows of `w` pixels, `h`
/// rows at most, with the first pixel at `(x, y)` of the target.
#[derive(Clone, Copy, Debug)]
pub struct Blit<'a> {
    pub x: i32,
    pub y: i32,
    pub w: u32,
    pub h: u32,
    pub pixels: &'a [Color],
}

/// What a region of interest is: a rectangle and the image it lies in.
pub struct RoiView {
    pub x: nat,
    pub y: nat,
    pub width: nat,
    pub height: nat,
    pub image: ImageView,
}

/// The smaller of two numbers.
pub open spec fn least(a: int, b: int) -> int {
    if a <= b {
        a
    } else {
        b
    }
}

/// The larger of two numbers.
pub open spec fn greatest(a: int, b: int) -> int {
    if a >= b {
        a
    } else {
        b
    }
}

impl RoiView {
    /// The rectangle lies inside its image, and the image is well formed.
    pub open spec fn wf(self) -> bool {
        &&& self.image.wf()
        &&& self.x + self.width <= self.image.width
        &&& self.y + self.height <= self.image.height
    }

    /// The rectangle asked for, cut down to what lies inside the image.
    pub open spec fn clamped(image: ImageView, x: nat, y: nat, w: nat, h: nat) -> RoiView {
        let x1 = least(x as int, image.width as int);
        let y1 = least(y as int, image.height as int);
        let x2 = greatest(x1, least((x + w) as int, image.width as int));
        let y2 = greatest(y1, least((y + h) as int, image.height as int));
        RoiView {
            x: x1 as nat,
            y: y1 as nat,
            width: (x2 - x1) as nat,
            height: (y2 - y1) as nat,
            image,
        }
    }

    /// Where in the image's pixels row `k` of the rectangle begins.
    pub open spec fn row_offset(self, k: int) -> int {
        (self.y + k) * self.image.width + self.x
    }
}

/// A rectangle inside an image: a view that owns no pixels.
pub struct ImageRoi<'a> {
    x: u32,
    y: u32,
    w: u32,
    h: u32,
    image: &'a Image,
}

impl<'a> View for ImageRoi<'a> {
    type V = RoiView;

    closed spec fn view(&self) -> RoiView {
        RoiView {
            x: self.x as nat,
            y: self.y as nat,
            width: self.w as nat,
            height: self.h as nat,
            image: self.image@,
        }
    }
}

impl<'a> ImageRoi<'a> {
    /// The invariant of every region: it lies inside a well-formed image.
    pub open spec fn wf(&self) -> bool {
        self@.wf()
    }

    /// The column of the image at which the region starts.
    pub fn x(&self) -> (x: u32)
        ensures
            x == self@.x,
    {
        self.x
    }

    /// The row of the image at which the region starts.
    pub fn y(&self) -> (y: u32)
        ensures
            y == self@.y,
    {
        self.y
    }

    /// The number of columns of the region.
    pub fn width(&self) -> (width: u32)
        ensures
            width == self@.width,
    {
        self.w
    }

    /// The number of rows of the region.
    pub fn height(&self) -> (height: u32)
        ensures
            height == self@.height,
    {
        self.h
    }

    /// The image that the region lies in.
    pub fn image(&self) -> (image: &'a Image)
        ensures
            image@ == self@.image,
    {
        self.image
    }

    /// What a renderer is to be given to show the region with its top left
    /// corner at `(x, y)`: one call for each row of the region, from the top
    /// down, each a row lower on the target than the one before. A row's
    /// pixels start at the row's offset in the image and run on to the end
    /// of the image's pixels; its width says how many of them belong to the
    /// row. A region without columns is drawn in rows without width.
    pub fn draw(&self, x: i32, y: i32) -> (rows: Vec<Blit<'a>>)
        requires
            self.wf(),
            self@.height > 0 ==> y + self@.height - 1 <= i32::MAX,
        ensures
            rows@.len() == self@.height,
            forall|k: int|
                0 <= k < rows@.len() ==> {
                    &&& (#[trigger] rows@[k]).x == x
                    &&& rows@[k].y == y + k
                    &&& rows@[k].w == self@.width
                    &&& rows@[k].h == 1
                    &&& rows@[k].pixels@ == self@.image.pixels.skip(self@.row_offset(k))
                },
    {
        let pixels: &'a [Color] = self.image.data.as_slice();
        let len: usize = pixels.len();
        let stride: u64 = self.image.w as u64;
        proof {
            lemma_area_bound(self.image.w, self.image.h);
            lemma_rows_below(self.y as int, self.image.h as int, stride as int);
        }
        let mut rows: Vec<Blit<'a>> = Vec::new();
        let mut offset: u64 = self.y as u64 * stride + self.x as u64;
        let mut k: u32 = 0;
        while k < self.h
            invariant
                self.wf(),
                self@.height > 0 ==> y + self@.height - 1 <= i32::MAX,
                pixels@ == self@.image.pixels,
                len == pixels@.len(),
                len <= 0xFFFF_FFFE_0000_0001,
                stride == self@.image.width,
                offset == self@.row_offset(k as int),
                k <= self.h,
                rows@.len() == k,
                forall|j: int|
                    0 <= j < rows@.len() ==> {
                        &&& (#[trigger] rows@[j]).x == x
                        &&& rows@[j].y == y + j
                        &&& rows@[j].w == self@.width
                        &&& rows@[j].h == 1
                        &&& rows@[j].pixels@ == self@.image.pixels.skip(self@.row_offset(j))
                    },
            decreases self.h - k,
        {
            proof {
                lemma_rows_in_bounds(self@, k as int);
                lemma_next_row(self@, k as int);
            }
            let row_y: i32 = (y as i64 + k as i64) as i32;
            let row: &'a [Color] = slice_subrange(pixels, offset as usize, len);
            rows.push(Blit { x, y: row_y, w: self.w, h: 1, pixels: row });
            offset = offset + stride;
            k = k + 1;
        }
        rows
    }
}

/// No row of a region reaches past the end of the image's pixels: the row
/// starts no later than the end, its own pixels all lie before the end, and
/// a row that has pixels starts before it.
pub proof fn lemma_rows_in_bounds(roi: RoiView, k: int)
    requires
        roi.wf(),
        0 <= k < roi.height,
    ensures
        0 <= roi.row_offset(k) <= roi.image.pixels.len(),
        roi.row_offset(k) + roi.width <= roi.image.pixels.len(),
        roi.width > 0 ==> roi.row_offset(k) < roi.image.pixels.len(),
{
    let stride = roi.image.width as int;
    let rows = roi.y + k + 1;
    assert(0 <= (roi.y + k) * stride && (roi.y + k) * stride + stride == rows * stride && rows
        * stride <= roi.image.height * stride && roi.image.height * stride == stride
        * roi.image.height) by (nonlinear_arith)
        requires
            0 <= roi.y + k,
            rows == roi.y + k + 1,
            rows <= roi.image.height,
            0 <= stride,
    ;
}

/// The region that covers a whole image has as many rows as the image, so
/// that drawing it hands over each row of the image once: row `k` starts at
/// the offset `k` times the width, and ends inside the pixels.
pub proof fn lemma_whole_image_rows(image: ImageView, k: int)
    requires
        image.wf(),
        0 <= k < image.height,
    ensures
        RoiView::clamped(image, 0, 0, image.width, image.height) == (RoiView {
            x: 0,
            y: 0,
            width: image.width,
            height: image.height,
            image,
        }),
        RoiView::clamped(image, 0, 0, image.width, image.height).wf(),
        RoiView::clamped(image, 0, 0, image.width, image.height).row_offset(k) == k * image.width,
        k * image.width + image.width <= image.pixels.len(),
{
    let roi = RoiView::clamped(image, 0, 0, image.width, image.height);
    lemma_rows_in_bounds(roi, k);
}

/// Whole rows of an image never reach past its last row.
proof fn lemma_rows_below(rows: int, height: int, stride: int)
    requires
        0 <= rows <= height,
        0 <= stride,
    ensures
        0 <= rows * stride <= height * stride,
        height * stride == stride * height,
{
    assert(0 <= rows * stride <= height * stride && height * stride == stride * height)
        by (nonlinear_arith)
        requires
            0 <= rows <= height,
            0 <= stride,
    ;
}

/// Each row of a region begins one image width after the row above it.
proof fn lemma_next_row(roi: RoiView, k: int)
    ensures
        roi.row_offset(k + 1) == roi.row_offset(k) + roi.image.width,
{
    let y = roi.y as int;
    let w = roi.image.width as int;
    assert((y + k + 1) * w == (y + k) * w + w) by (nonlinear_arith);
}

} // verus!
