//! Decoding of Windows bitmaps with 24 or 32 bits per pixel.
//!
//! The decoder never fails on a short file: a byte that the file does not
//! hold reads as zero.

use crate::color::Color;
use crate::image::{Image, ImageError, ImageView};
use vstd::prelude::*;

verus! {

/// The byte at position `i`, or zero where the bytes end before it.
pub open spec fn byte_at(bytes: Seq<u8>, i: int) -> u8 {
    if 0 <= i < bytes.len() {
        bytes[i]
    } else {
        0
    }
}

/// The little-endian 16-bit number at position `i`.
pub open spec fn u16_at(bytes: Seq<u8>, i: int) -> u16 {
    (byte_at(bytes, i) + 0x100 * byte_at(bytes, i + 1)) as u16
}

/// The little-endian 32-bit number at position `i`.
pub open spec fn u32_at(bytes: Seq<u8>, i: int) -> u32 {
    (byte_at(bytes, i) + 0x100 * byte_at(bytes, i + 1) + 0x1_0000 * byte_at(bytes, i + 2)
        + 0x100_0000 * byte_at(bytes, i + 3)) as u32
}

/// The bytes start with the letters `BM`.
pub open spec fn has_signature(bytes: Seq<u8>) -> bool {
    byte_at(bytes, 0) == 0x42 && byte_at(bytes, 1) == 0x4D
}

/// Reads one byte, leniently.
pub fn get(bytes: &[u8], i: u128) -> (byte: u8)
    ensures
        byte == byte_at(bytes@, i as int),
{
    if i < bytes.len() as u128 {
        bytes[i as usize]
    } else {
        0
    }
}

/// Reads a little-endian 16-bit number, leniently.
pub fn getw(bytes: &[u8], i: u128) -> (word: u16)
    ensures
        word == u16_at(bytes@, i as int),
{
    if i > u128::MAX - 1 {
        assert(bytes.len() <= usize::MAX);
        0
    } else {
        get(bytes, i) as u16 + get(bytes, i + 1) as u16 * 0x100
    }
}

/// Reads a little-endian 32-bit number, leniently.
pub fn getd(bytes: &[u8], i: u128) -> (word: u32)
    ensures
        word == u32_at(bytes@, i as int),
{
    if i > u128::MAX - 3 {
        assert(bytes.len() <= usize::MAX);
        0
    } else {
        get(bytes, i) as u32 + get(bytes, i + 1) as u32 * 0x100 + get(bytes, i + 2) as u32
            * 0x1_0000 + get(bytes, i + 3) as u32 * 0x100_0000
    }
}

/// The position of the lowest set bit of `mask` that is not below `from`.
pub open spec fn lowest_set_bit_from(mask: u32, from: u32) -> u32
    decreases 32 - from,
{
    if from >= 32 || (mask >> from) & 1 == 1 {
        from
    } else {
        lowest_set_bit_from(mask, (from + 1) as u32)
    }
}

/// How far a channel's bits are shifted down: to the position of the
/// mask's lowest set bit, and not at all for an empty mask.
pub open spec fn mask_shift(mask: u32) -> u32 {
    if mask == 0 {
        0
    } else {
        lowest_set_bit_from(mask, 0)
    }
}

/// The masked bits of a pixel's word, shifted down by `shift`, and of these
/// the low eight.
pub open spec fn shifted_channel(word: u32, mask: u32, shift: u32) -> u8 {
    (((word & mask) >> shift) & 0xFF) as u8
}

/// The channel that `mask` selects from a pixel's word.
pub open spec fn channel(word: u32, mask: u32) -> u8 {
    shifted_channel(word, mask, mask_shift(mask))
}

/// Searching upwards from a position below which the mask still has a set
/// bit finds the lowest such bit.
proof fn lemma_lowest_set_bit_from(mask: u32, from: u32)
    requires
        from < 32,
        mask >> from != 0,
    ensures
        from <= lowest_set_bit_from(mask, from) < 32,
        (mask >> lowest_set_bit_from(mask, from)) & 1 == 1,
        forall|j: u32|
            from <= j < lowest_set_bit_from(mask, from) ==> #[trigger] (mask >> j) & 1 == 0,
    decreases 32 - from,
{
    if (mask >> from) & 1 == 1 {
    } else {
        let next: u32 = (from + 1) as u32;
        assert(from < 31 && mask >> next != 0) by (bit_vector)
            requires
                from < 32,
                mask >> from != 0,
                (mask >> from) & 1 != 1,
                next == from + 1,
        ;
        assert((mask >> from) & 1 == 0) by (bit_vector)
            requires
                (mask >> from) & 1 != 1,
        ;
        lemma_lowest_set_bit_from(mask, next);
    }
}

/// The shift of a mask that is not empty is the position of its lowest set
/// bit; the shift of the empty mask is zero.
pub proof fn lemma_mask_shift(mask: u32)
    ensures
        mask_shift(mask) < 32,
        mask == 0 ==> mask_shift(mask) == 0,
        mask != 0 ==> (mask >> mask_shift(mask)) & 1 == 1,
        forall|j: u32| j < mask_shift(mask) ==> #[trigger] (mask >> j) & 1 == 0,
{
    if mask != 0 {
        assert(mask >> 0u32 != 0) by (bit_vector)
            requires
                mask != 0,
        ;
        lemma_lowest_set_bit_from(mask, 0);
    }
}

/// The shift that brings the channel selected by `mask` down to bit zero.
pub fn shift_of(mask: u32) -> (shift: u32)
    ensures
        shift == mask_shift(mask),
        shift < 32,
{
    let mut shift: u32 = 0;
    proof {
        lemma_mask_shift(mask);
        if mask != 0 {
            assert(mask >> 0u32 != 0) by (bit_vector)
                requires
                    mask != 0,
            ;
        }
    }
    while mask > 0 && shift < 32 && (mask >> shift) & 1 == 0
        invariant
            shift <= 32,
            mask_shift(mask) < 32,
            mask == 0 ==> shift == 0,
            mask != 0 ==> shift < 32 && mask >> shift != 0,
            mask != 0 ==> lowest_set_bit_from(mask, shift) == mask_shift(mask),
        decreases 32 - shift,
    {
        proof {
            let next: u32 = (shift + 1) as u32;
            assert(shift < 31 && mask >> next != 0) by (bit_vector)
                requires
                    shift < 32,
                    mask >> shift != 0,
                    (mask >> shift) & 1 == 0,
                    next == shift + 1,
            ;
        }
        shift += 1;
    }
    proof {
        if mask != 0 {
            assert((mask >> shift) & 1 == 1) by (bit_vector)
                requires
                    shift < 32,
                    (mask >> shift) & 1 != 0,
            ;
        }
    }
    shift
}

/// Takes the masked bits out of a pixel's word and shifts them down.
pub fn extract(word: u32, mask: u32, shift: u32) -> (value: u8)
    requires
        shift < 32,
    ensures
        value == shifted_channel(word, mask, shift),
{
    let low: u32 = ((word & mask) >> shift) & 0xFF;
    assert(low <= 0xFF) by (bit_vector)
        requires
            low == ((word & mask) >> shift) & 0xFF,
    ;
    low as u8
}

/// The fields of a bitmap's header that the decoder goes by.
#[derive(Clone, Copy, Debug, PartialEq, Eq, Structural)]
pub struct BmpHeader {
    /// Where in the file the pixel data begins.
    pub offset: u32,
    /// The number of pixels in a row.
    pub width: u32,
    /// The number of rows.
    pub height: u32,
    /// The number of bits that one pixel takes.
    pub depth: u16,
    /// The bits of a pixel's word that hold its red channel.
    pub red_mask: u32,
    /// The bits of a pixel's word that hold its green channel.
    pub green_mask: u32,
    /// The bits of a pixel's word that hold its blue channel.
    pub blue_mask: u32,
    /// The bits of a pixel's word that hold its alpha channel.
    pub alpha_mask: u32,
}

impl BmpHeader {
    /// The header that the bytes of a file hold. The file brings its own
    /// channel masks where the field at `0x1E` is 3; otherwise the masks are
    /// those of the byte order red, green, blue, alpha.
    pub open spec fn of(bytes: Seq<u8>) -> BmpHeader {
        let own_masks = u32_at(bytes, 0x1E) == 3;
        BmpHeader {
            offset: u32_at(bytes, 0x0A),
            width: u32_at(bytes, 0x12),
            height: u32_at(bytes, 0x16),
            depth: u16_at(bytes, 0x1C),
            red_mask: if own_masks {
                u32_at(bytes, 0x36)
            } else {
                0x0000_00FF
            },
            green_mask: if own_masks {
                u32_at(bytes, 0x3A)
            } else {
                0x0000_FF00
            },
            blue_mask: if own_masks {
                u32_at(bytes, 0x3E)
            } else {
                0x00FF_0000
            },
            alpha_mask: if own_masks {
                u32_at(bytes, 0x42)
            } else {
                0xFF00_0000
            },
        }
    }

    /// The number of bytes that one pixel takes: the depth in bits, rounded
    /// up to whole bytes.
    pub open spec fn bytes_per_pixel(self) -> int {
        (self.depth + 7) / 8
    }

    /// The number of bytes that one row takes: its bits, rounded up to
    /// whole 32-bit words.
    pub open spec fn row_stride(self) -> int {
        (self.depth * self.width + 31) / 32 * 4
    }

    /// Only pixels of three or four bytes are decoded.
    pub open spec fn supported(self) -> bool {
        self.bytes_per_pixel() == 3 || self.bytes_per_pixel() == 4
    }

    /// Where in the file the pixel of column `x` and row `y` begins. The
    /// file holds its rows from the bottom up.
    pub open spec fn pixel_offset(self, x: int, y: int) -> int {
        self.offset + (self.height - y - 1) * self.row_stride() + x * self.bytes_per_pixel()
    }

    /// The color that a pixel's word stands for: with three bytes to the
    /// pixel an opaque color, with four a color with the alpha channel that
    /// the word holds.
    pub open spec fn color_of(self, word: u32) -> Color
        recommends
            self.supported(),
    {
        if self.bytes_per_pixel() == 3 {
            Color::spec_rgb(
                channel(word, self.red_mask),
                channel(word, self.green_mask),
                channel(word, self.blue_mask),
            )
        } else {
            Color::spec_rgba(
                channel(word, self.red_mask),
                channel(word, self.green_mask),
                channel(word, self.blue_mask),
                channel(word, self.alpha_mask),
            )
        }
    }

    /// The color of the pixel of column `x` and row `y`, rows counted from
    /// the top.
    pub open spec fn pixel(self, bytes: Seq<u8>, x: int, y: int) -> Color
        recommends
            self.supported(),
    {
        self.color_of(u32_at(bytes, self.pixel_offset(x, y)))
    }

    /// All pixels in row-major order, top row first.
    pub open spec fn pixels(self, bytes: Seq<u8>) -> Seq<Color>
        recommends
            self.supported(),
    {
        Seq::new(
            (self.width * self.height) as nat,
            |i: int| self.pixel(bytes, i % (self.width as int), i / (self.width as int)),
        )
    }

    /// Reads the header out of the bytes of a file.
    pub fn read(bytes: &[u8]) -> (header: BmpHeader)
        ensures
            header == BmpHeader::of(bytes@),
    {
        let offset: u32 = getd(bytes, 0x0A);
        let width: u32 = getd(bytes, 0x12);
        let height: u32 = getd(bytes, 0x16);
        let depth: u16 = getw(bytes, 0x1C);
        if getd(bytes, 0x1E) == 3 {
            BmpHeader {
                offset,
                width,
                height,
                depth,
                red_mask: getd(bytes, 0x36),
                green_mask: getd(bytes, 0x3A),
                blue_mask: getd(bytes, 0x3E),
                alpha_mask: getd(bytes, 0x42),
            }
        } else {
            BmpHeader {
                offset,
                width,
                height,
                depth,
                red_mask: 0x0000_00FF,
                green_mask: 0x0000_FF00,
                blue_mask: 0x00FF_0000,
                alpha_mask: 0xFF00_0000,
            }
        }
    }
}

/// What decoding the bytes of a file gives. Bytes without the signature are
/// refused. With a supported depth the image has the header's dimensions
/// and pixels. With any other depth no pixel is decoded, which suits the
/// header's dimensions only where they leave room for none.
pub open spec fn decoded(bytes: Seq<u8>) -> Result<ImageView, ImageError> {
    let header = BmpHeader::of(bytes);
    let width = header.width as nat;
    let height = header.height as nat;
    if !has_signature(bytes) {
        Err(ImageError::InvalidSignature)
    } else if header.supported() {
        Ok(ImageView { width, height, pixels: header.pixels(bytes) })
    } else if width * height == 0 {
        Ok(ImageView { width, height, pixels: Seq::empty() })
    } else {
        Err(ImageError::DimensionMismatch)
    }
}

/// An empty word holds no channel, whatever the mask.
pub proof fn lemma_channel_of_zero(mask: u32)
    ensures
        channel(0, mask) == 0,
{
    let shift: u32 = mask_shift(mask);
    assert((((0u32 & mask) >> shift) & 0xFF) as u8 == 0) by (bit_vector);
}

/// A pixel whose bytes the file does not hold comes out blank: opaque black with
/// three bytes to the pixel, transparent black with four.
pub proof fn lemma_missing_pixel_is_blank(bytes: Seq<u8>, x: int, y: int)
    requires
        BmpHeader::of(bytes).supported(),
        BmpHeader::of(bytes).pixel_offset(x, y) >= bytes.len(),
    ensures
        BmpHeader::of(bytes).pixel(bytes, x, y) == if BmpHeader::of(bytes).bytes_per_pixel() == 3 {
            Color::spec_rgb(0, 0, 0)
        } else {
            Color::spec_rgba(0, 0, 0, 0)
        },
{
    let header = BmpHeader::of(bytes);
    assert(u32_at(bytes, header.pixel_offset(x, y)) == 0);
    lemma_channel_of_zero(header.red_mask);
    lemma_channel_of_zero(header.green_mask);
    lemma_channel_of_zero(header.blue_mask);
    lemma_channel_of_zero(header.alpha_mask);
}

/// Where a file brings its own masks, these alone say which bits of a
/// pixel's word make up each channel.
pub proof fn lemma_own_masks(bytes: Seq<u8>, x: int, y: int)
    requires
        u32_at(bytes, 0x1E) == 3,
        BmpHeader::of(bytes).supported(),
    ensures
        ({
            let header = BmpHeader::of(bytes);
            let word = u32_at(bytes, header.pixel_offset(x, y));
            let red = channel(word, u32_at(bytes, 0x36));
            let green = channel(word, u32_at(bytes, 0x3A));
            let blue = channel(word, u32_at(bytes, 0x3E));
            let alpha = channel(word, u32_at(bytes, 0x42));
            header.pixel(bytes, x, y) == if header.bytes_per_pixel() == 3 {
                Color::spec_rgb(red, green, blue)
            } else {
                Color::spec_rgba(red, green, blue, alpha)
            }
        }),
{
}

/// A mask that covers one whole byte of the word selects that byte.
pub proof fn lemma_byte_masks(word: u32)
    ensures
        channel(word, 0x0000_00FF) == (word & 0xFF) as u8,
        channel(word, 0x0000_FF00) == ((word >> 8) & 0xFF) as u8,
        channel(word, 0x00FF_0000) == ((word >> 16) & 0xFF) as u8,
        channel(word, 0xFF00_0000) == ((word >> 24) & 0xFF) as u8,
{
    lemma_mask_shift(0x0000_00FF);
    lemma_mask_shift(0x0000_FF00);
    lemma_mask_shift(0x00FF_0000);
    lemma_mask_shift(0xFF00_0000);
    let s0: u32 = mask_shift(0x0000_00FF);
    let s1: u32 = mask_shift(0x0000_FF00);
    let s2: u32 = mask_shift(0x00FF_0000);
    let s3: u32 = mask_shift(0xFF00_0000);
    assert((0x0000_00FFu32 >> 0u32) & 1 == 1 && (0x0000_FF00u32 >> 8u32) & 1 == 1 && (0x00FF_0000u32
        >> 16u32) & 1 == 1 && (0xFF00_0000u32 >> 24u32) & 1 == 1) by (bit_vector);
    assert(s1 >= 8) by (bit_vector)
        requires
            s1 < 32,
            (0x0000_FF00u32 >> s1) & 1 == 1,
    ;
    assert(s2 >= 16) by (bit_vector)
        requires
            s2 < 32,
            (0x00FF_0000u32 >> s2) & 1 == 1,
    ;
    assert(s3 >= 24) by (bit_vector)
        requires
            s3 < 32,
            (0xFF00_0000u32 >> s3) & 1 == 1,
    ;
    assert(s0 == 0 && s1 == 8 && s2 == 16 && s3 == 24);
    assert((((word & 0x0000_00FF) >> 0u32) & 0xFF) as u8 == (word & 0xFF) as u8 && (((word
        & 0x0000_FF00) >> 8u32) & 0xFF) as u8 == ((word >> 8) & 0xFF) as u8 && (((word
        & 0x00FF_0000) >> 16u32) & 0xFF) as u8 == ((word >> 16) & 0xFF) as u8 && (((word
        & 0xFF00_0000) >> 24u32) & 0xFF) as u8 == ((word >> 24) & 0xFF) as u8) by (bit_vector);
}

/// In a grid of `width` columns the pixel of column `x` and row `y` has the
/// index `y * width + x`, and no other pixel has it.
pub proof fn lemma_row_major(x: int, y: int, width: int, height: int)
    requires
        0 <= x < width,
        0 <= y < height,
    ensures
        0 <= y * width + x < width * height,
        (y * width + x) % width == x,
        (y * width + x) / width == y,
{
    assert(0 <= y * width && y * width + width <= width * height) by (nonlinear_arith)
        requires
            0 <= y < height,
            0 < width,
    ;
    vstd::arithmetic::div_mod::lemma_fundamental_div_mod_converse(y * width + x, width, y, x);
}

/// Decodes the bytes of a bitmap file into an image.
pub fn parse(file_data: &[u8]) -> (result: Result<Image, ImageError>)
    ensures
        match result {
            Ok(image) => image.wf() && decoded(file_data@) == Ok::<ImageView, ImageError>(image@),
            Err(error) => decoded(file_data@) == Err::<ImageView, ImageError>(error),
        },
        !has_signature(file_data@) ==> result == Err::<Image, ImageError>(
            ImageError::InvalidSignature,
        ),
        has_signature(file_data@) && BmpHeader::of(file_data@).supported() ==> result is Ok,
{
    if get(file_data, 0) != 0x42 || get(file_data, 1) != 0x4D {
        return Err(ImageError::InvalidSignature);
    }
    let header: BmpHeader = BmpHeader::read(file_data);
    let width: u32 = header.width;
    let height: u32 = header.height;
    let depth: u32 = header.depth as u32;
    let bytes: u32 = (depth + 7) / 8;
    assert(depth as u64 * width as u64 <= 0xFFFF * 0xFFFF_FFFF) by (nonlinear_arith)
        requires
            depth <= 0xFFFF,
            width <= 0xFFFF_FFFF,
    ;
    let row_bytes: u64 = (depth as u64 * width as u64 + 31) / 32 * 4;
    let red_shift: u32 = shift_of(header.red_mask);
    let green_shift: u32 = shift_of(header.green_mask);
    let blue_shift: u32 = shift_of(header.blue_mask);
    let alpha_shift: u32 = shift_of(header.alpha_mask);
    let mut data: Vec<Color> = Vec::new();
    if bytes == 3 || bytes == 4 {
        let mut y: u32 = 0;
        while y < height
            invariant
                header == BmpHeader::of(file_data@),
                header.supported(),
                width == header.width,
                height == header.height,
                bytes == header.bytes_per_pixel(),
                row_bytes == header.row_stride(),
                red_shift == mask_shift(header.red_mask),
                green_shift == mask_shift(header.green_mask),
                blue_shift == mask_shift(header.blue_mask),
                alpha_shift == mask_shift(header.alpha_mask),
                red_shift < 32 && green_shift < 32 && blue_shift < 32 && alpha_shift < 32,
                y <= height,
                data@.len() == y * width,
                forall|i: int|
                    0 <= i < data@.len() ==> data@[i] == header.pixel(
                        file_data@,
                        i % (width as int),
                        i / (width as int),
                    ),
            decreases height - y,
        {
            let mut x: u32 = 0;
            while x < width
                invariant
                    header == BmpHeader::of(file_data@),
                    header.supported(),
                    width == header.width,
                    height == header.height,
                    bytes == header.bytes_per_pixel(),
                    row_bytes == header.row_stride(),
                    red_shift == mask_shift(header.red_mask),
                    green_shift == mask_shift(header.green_mask),
                    blue_shift == mask_shift(header.blue_mask),
                    alpha_shift == mask_shift(header.alpha_mask),
                    red_shift < 32 && green_shift < 32 && blue_shift < 32 && alpha_shift < 32,
                    y < height,
                    x <= width,
                    data@.len() == y * width + x,
                    forall|i: int|
                        0 <= i < data@.len() ==> data@[i] == header.pixel(
                            file_data@,
                            i % (width as int),
                            i / (width as int),
                        ),
                decreases width - x,
            {
                let rows_below: u128 = (height - y - 1) as u128;
                assert(rows_below * (row_bytes as u128) <= 0xFFFF_FFFF * 0xFFFF_FFFF_FFFF_FFFF
                    && (x as u128) * (bytes as u128) <= 0xFFFF_FFFF * 0xFFFF_FFFF)
                    by (nonlinear_arith)
                    requires
                        rows_below <= 0xFFFF_FFFF,
                        row_bytes <= 0xFFFF_FFFF_FFFF_FFFF,
                        x <= 0xFFFF_FFFF,
                        bytes <= 0xFFFF_FFFF,
                ;
                let pixel_offset: u128 = header.offset as u128 + rows_below * (row_bytes as u128)
                    + (x as u128) * (bytes as u128);
                let pixel_data: u32 = getd(file_data, pixel_offset);
                let red: u8 = extract(pixel_data, header.red_mask, red_shift);
                let green: u8 = extract(pixel_data, header.green_mask, green_shift);
                let blue: u8 = extract(pixel_data, header.blue_mask, blue_shift);
                let alpha: u8 = extract(pixel_data, header.alpha_mask, alpha_shift);
                let color: Color = if bytes == 3 {
                    Color::rgb(red, green, blue)
                } else {
                    Color::rgba(red, green, blue, alpha)
                };
                proof {
                    lemma_row_major(x as int, y as int, width as int, height as int);
                    assert(color == header.pixel(file_data@, x as int, y as int));
                }
                data.push(color);
                x += 1;
            }
            proof {
                assert((y + 1) * width == y * width + width) by (nonlinear_arith);
            }
            y += 1;
        }
        proof {
            assert(height * width == width * height) by (nonlinear_arith);
            assert(data@ =~= header.pixels(file_data@));
        }
    }
    Image::from_data(width, height, data)
}

} // verus!
