//! Images by their size and 8-bit RGB content, and their layout as network input.
use crate::arith;
use image::GenericImageView;
use vstd::arithmetic::div_mod::*;
use vstd::arithmetic::mul::*;
use vstd::prelude::*;

verus! {

/// An image of the `image` crate, in whatever color format it was read in.
#[verifier::external_type_specification]
#[verifier::external_body]
pub struct ExDynamicImage(image::DynamicImage);

/// The content of an image: three bytes per pixel (red, green, blue), row by row from the top,
/// each row from the left.
pub uninterp spec fn rgb_bytes(image: image::DynamicImage) -> Seq<u8>;

/// The width and the height of an image.
pub uninterp spec fn image_size(image: image::DynamicImage) -> (u32, u32);

/// `DynamicImage::dimensions` gives the width and the height.
#[verifier::external_body]
pub(crate) fn dimensions(image: &image::DynamicImage) -> (size: (u32, u32))
    ensures
        size == image_size(*image),
{
    image.dimensions()
}

/// `DynamicImage::to_rgb8` converts every pixel to 8-bit RGB; the pixels then come row by row.
#[verifier::external_body]
pub(crate) fn to_rgb8(image: &image::DynamicImage) -> (bytes: Vec<u8>)
    ensures
        bytes@ == rgb_bytes(*image),
        bytes@.len() == image_size(*image).0 * image_size(*image).1 * 3,
{
    image.to_rgb8().pixels().flat_map(|pixel| pixel.0).collect()
}

/// Whether scaling an image to a width and a height can come out with another image.
pub uninterp spec fn scales_to(
    image: image::DynamicImage,
    width: u32,
    height: u32,
    resized: image::DynamicImage,
) -> bool;

/// `DynamicImage::resize_exact` with the Lanczos filter gives an image of exactly the size asked
/// for; where that is the size the image has, the result is a copy. What the pixels of another
/// size are is not a function of the image alone, since they come out of trigonometric functions in
/// floating point, whose last bits differ between platforms: `scales_to` holds of all that can come
/// out.
#[verifier::external_body]
pub(crate) fn resize_exact(image: &image::DynamicImage, width: u32, height: u32) -> (resized:
    image::DynamicImage)
    requires
        0 < width <= 0xffff,
        0 < height <= 0xffff,
    ensures
        scales_to(*image, width, height, resized),
        image_size(resized) == (width, height),
        image_size(*image) == (width, height) ==> rgb_bytes(resized) == rgb_bytes(*image),
{
    image.resize_exact(width, height, image::imageops::FilterType::Lanczos3)
}

/// The columns (or rows) that a cut of `size` from `from` on leaves of `available`.
pub open spec fn cut_size(from: u32, size: u32, available: u32) -> u32 {
    arith::lesser(size as int, arith::excess(available as int, from as int)) as u32
}

/// The part of an RGB content that begins in column `left` and row `top` and is `width` columns by
/// `height` rows large, where a row of the whole has `stride` columns.
pub open spec fn cut_bytes(
    bytes: Seq<u8>,
    stride: int,
    left: int,
    top: int,
    width: int,
    height: int,
) -> Seq<u8> {
    Seq::new(
        (width * height * 3) as nat,
        |i: int|
            bytes[((top + (i / 3) / width) * stride + left + (i / 3) % width) * 3 + i % 3],
    )
}

/// `DynamicImage::crop_imm` cuts a rectangle out; what lies outside of the image is left away.
#[verifier::external_body]
pub(crate) fn crop_imm(
    image: &image::DynamicImage,
    left: u32,
    top: u32,
    width: u32,
    height: u32,
) -> (part: image::DynamicImage)
    ensures
        image_size(part) == (
            cut_size(left, width, image_size(*image).0),
            cut_size(top, height, image_size(*image).1),
        ),
        rgb_bytes(part) == cut_bytes(
            rgb_bytes(*image),
            image_size(*image).0 as int,
            left as int,
            top as int,
            image_size(part).0 as int,
            image_size(part).1 as int,
        ),
{
    image.crop_imm(left, top, width, height)
}

/// An RGB content of `width` columns and `height` rows after a quarter turn clockwise: the first
/// row becomes the last column.
pub open spec fn turned_bytes(bytes: Seq<u8>, width: int, height: int) -> Seq<u8> {
    Seq::new(
        (width * height * 3) as nat,
        |i: int|
            bytes[((height - 1 - (i / 3) % height) * width + (i / 3) / height) * 3 + i % 3],
    )
}

/// `DynamicImage::rotate90` turns an image by a quarter clockwise.
#[verifier::external_body]
pub(crate) fn rotate90(image: &image::DynamicImage) -> (turned: image::DynamicImage)
    ensures
        image_size(turned) == (image_size(*image).1, image_size(*image).0),
        rgb_bytes(turned) == turned_bytes(
            rgb_bytes(*image),
            image_size(*image).0 as int,
            image_size(*image).1 as int,
        ),
{
    image.rotate90()
}

/// The sample of one color channel (blue, green, red) at one place: a byte of the image, or
/// nothing beyond its right and lower edge.
pub open spec fn sample(
    rgb: Seq<u8>,
    width: int,
    height: int,
    channel: int,
    x: int,
    y: int,
) -> Option<u8> {
    if x < width && y < height {
        Some(rgb[(y * width + x) * 3 + 2 - channel])
    } else {
        None
    }
}

/// An image as network input: first the blue, then the green, then the red samples, each channel
/// row by row, with room for `columns` by `rows` samples.
pub open spec fn planar(
    rgb: Seq<u8>,
    width: int,
    height: int,
    columns: int,
    rows: int,
) -> Seq<Option<u8>> {
    Seq::new(
        (3 * (columns * rows)) as nat,
        |i: int|
            sample(
                rgb,
                width,
                height,
                i / (columns * rows),
                (i % (columns * rows)) % columns,
                (i % (columns * rows)) / columns,
            ),
    )
}

/// Where the sample of a channel at a place stands in the network input.
pub open spec fn planar_index(channel: int, x: int, y: int, columns: int, rows: int) -> int {
    channel * (columns * rows) + y * columns + x
}

/// Every place of every channel has its own entry in the network input, which holds the sample of
/// that channel at that place.
pub proof fn law_planar(
    rgb: Seq<u8>,
    width: int,
    height: int,
    columns: int,
    rows: int,
    channel: int,
    x: int,
    y: int,
)
    requires
        0 <= channel < 3,
        0 <= x < columns,
        0 <= y < rows,
    ensures
        0 <= planar_index(channel, x, y, columns, rows) < 3 * (columns * rows),
        planar(rgb, width, height, columns, rows)[planar_index(channel, x, y, columns, rows)]
            == sample(rgb, width, height, channel, x, y),
{
    let plane = columns * rows;
    let inner = y * columns + x;
    let i = planar_index(channel, x, y, columns, rows);
    assert(0 <= inner < plane) by (nonlinear_arith)
        requires
            plane == columns * rows,
            inner == y * columns + x,
            0 <= x < columns,
            0 <= y < rows,
    ;
    lemma_fundamental_div_mod_converse(i, plane, channel, inner);
    lemma_fundamental_div_mod_converse(inner, columns, y, x);
    assert(0 <= channel * plane && channel * plane <= 2 * plane) by (nonlinear_arith)
        requires
            0 <= channel <= 2,
            plane > 0,
    ;
}

/// Where a pixel's byte stands within its image.
proof fn lemma_pixel_in_image(width: int, height: int, channel: int, x: int, y: int)
    requires
        0 <= channel < 3,
        0 <= x < width,
        0 <= y < height,
    ensures
        0 <= (y * width + x) * 3 + 2 - channel < width * height * 3,
        0 <= y * width,
{
    assert(0 <= y * width && y * width + x < width * height) by (nonlinear_arith)
        requires
            0 <= x < width,
            0 <= y < height,
    ;
}

/// Lays an image out as network input.
pub fn planar_bgr(rgb: &[u8], width: u32, height: u32, columns: u32, rows: u32) -> (tensor: Vec<
    Option<u8>,
>)
    requires
        rgb@.len() == width * height * 3,
        width <= columns,
        height <= rows,
        3 * (columns * rows) <= usize::MAX,
    ensures
        tensor@ == planar(rgb@, width as int, height as int, columns as int, rows as int),
{
    let ghost whole = planar(rgb@, width as int, height as int, columns as int, rows as int);
    let mut tensor: Vec<Option<u8>> = Vec::new();
    let size: usize = rgb.len();
    assert(whole.take(0 * (columns * rows)) == Seq::<Option<u8>>::empty()) by {
        lemma_mul_basics_1(columns * rows);
    }
    for channel in 0..3usize
        invariant
            rgb@.len() == width * height * 3,
            size == rgb@.len(),
            width <= columns,
            height <= rows,
            whole == planar(rgb@, width as int, height as int, columns as int, rows as int),
            tensor@ == whole.take(channel * (columns * rows)),
            0 <= columns * rows,
    {
        assert(0 * columns == 0) by {
            lemma_mul_basics_1(columns as int);
        }
        for y in 0..rows
            invariant
                channel < 3,
                rgb@.len() == width * height * 3,
                size == rgb@.len(),
                width <= columns,
                height <= rows,
                whole == planar(rgb@, width as int, height as int, columns as int, rows as int),
                tensor@ == whole.take(channel * (columns * rows) + y * columns),
        {
            for x in 0..columns
                invariant
                    channel < 3,
                    y < rows,
                    rgb@.len() == width * height * 3,
                    size == rgb@.len(),
                    width <= columns,
                    height <= rows,
                    whole == planar(rgb@, width as int, height as int, columns as int, rows as int),
                    tensor@ == whole.take(channel * (columns * rows) + y * columns + x),
            {
                proof {
                    law_planar(
                        rgb@,
                        width as int,
                        height as int,
                        columns as int,
                        rows as int,
                        channel as int,
                        x as int,
                        y as int,
                    );
                }
                let ghost index = planar_index(
                    channel as int,
                    x as int,
                    y as int,
                    columns as int,
                    rows as int,
                );
                assert(whole.take(index + 1) == whole.take(index).push(whole[index]));
                if x < width && y < height {
                    proof {
                        lemma_pixel_in_image(
                            width as int,
                            height as int,
                            channel as int,
                            x as int,
                            y as int,
                        );
                    }
                    let at: usize = (y as usize * width as usize + x as usize) * 3 + (2 - channel);
                    tensor.push(Some(rgb[at]));
                } else {
                    tensor.push(None);
                }
            }
            assert((y + 1) * columns == y * columns + columns) by (nonlinear_arith);
        }
        assert((channel + 1) * (columns * rows) == channel * (columns * rows) + rows * columns)
            by (nonlinear_arith);
    }
    assert(whole.take(3 * (columns * rows)) == whole);
    tensor
}

/// Every place of the network input holds one byte of the pixel at that place: the first channel its
/// blue byte, the second its green and the third its red one, where a pixel's bytes come in the order
/// red, green, blue. Places beyond the image hold nothing.
pub proof fn law_channels_are_blue_green_red(
    rgb: Seq<u8>,
    width: int,
    height: int,
    columns: int,
    rows: int,
    channel: int,
    x: int,
    y: int,
)
    requires
        0 <= channel < 3,
        0 <= x < columns,
        0 <= y < rows,
    ensures
        ({
            let tensor = planar(rgb, width, height, columns, rows);
            let at = channel * (columns * rows) + y * columns + x;
            let pixel = (y * width + x) * 3;
            &&& tensor.len() == 3 * (columns * rows)
            &&& 0 <= at < tensor.len()
            &&& x < width && y < height && channel == 0 ==> tensor[at] == Some(rgb[pixel + 2])
            &&& x < width && y < height && channel == 1 ==> tensor[at] == Some(rgb[pixel + 1])
            &&& x < width && y < height && channel == 2 ==> tensor[at] == Some(rgb[pixel])
            &&& x >= width || y >= height ==> tensor[at] == None::<u8>
        }),
{
    law_planar(rgb, width, height, columns, rows, channel, x, y);
}

/// A cut keeps its pixels: the one in its column `x` and row `y` is the one that lies as far from
/// the cut's first column and row in the whole.
pub proof fn law_cut_keeps_pixels(
    bytes: Seq<u8>,
    stride: int,
    left: int,
    top: int,
    width: int,
    height: int,
    x: int,
    y: int,
    channel: int,
)
    requires
        0 <= x < width,
        0 <= y < height,
        0 <= channel < 3,
    ensures
        cut_bytes(bytes, stride, left, top, width, height).len() == width * height * 3,
        cut_bytes(bytes, stride, left, top, width, height)[(y * width + x) * 3 + channel]
            == bytes[((top + y) * stride + left + x) * 3 + channel],
{
    let place = y * width + x;
    lemma_pixel_in_image(width, height, 2 - channel, x, y);
    lemma_fundamental_div_mod_converse(place * 3 + channel, 3, place, channel);
    lemma_fundamental_div_mod_converse(place, width, y, x);
}

/// A quarter turn clockwise keeps the pixels: the one in column `x` and row `y` goes to row `x`, as
/// far from the right end as it was from the top.
pub proof fn law_turn_keeps_pixels(
    bytes: Seq<u8>,
    width: int,
    height: int,
    x: int,
    y: int,
    channel: int,
)
    requires
        0 <= x < width,
        0 <= y < height,
        0 <= channel < 3,
    ensures
        turned_bytes(bytes, width, height).len() == width * height * 3,
        turned_bytes(bytes, width, height)[(x * height + (height - 1 - y)) * 3 + channel] == bytes[(y
            * width + x) * 3 + channel],
{
    let place = x * height + (height - 1 - y);
    lemma_pixel_in_image(height, width, 2 - channel, height - 1 - y, x);
    lemma_mul_is_commutative(width, height);
    lemma_fundamental_div_mod_converse(place * 3 + channel, 3, place, channel);
    lemma_fundamental_div_mod_converse(place, height, x, height - 1 - y);
    assert(width * height * 3 == height * width * 3);
}

/// What a cut takes away begins where it is asked to and ends within the image.
pub proof fn law_cut_stays_within(from: u32, size: u32, available: u32)
    ensures
        from + size <= available ==> cut_size(from, size, available) == size,
        from <= available < from + size ==> cut_size(from, size, available) == available - from,
        available < from ==> cut_size(from, size, available) == 0,
{
}

} // verus!
