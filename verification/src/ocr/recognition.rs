//! Text recognition: preparing line images, and reading the network's output.
use crate::arith;
use crate::ocr::detection::TextBox;
use crate::ocr::picture;
use crate::ocr::OcrError;
use crate::text;
use vstd::arithmetic::div_mod::*;
use vstd::arithmetic::mul::*;
use vstd::prelude::*;
use vstd::slice::slice_subrange;

verus! {

/// The height of a network input.
pub const INPUT_HEIGHT: u32 = 48;

/// The least width of a network input.
pub const INPUT_WIDTH_MIN: u32 = 320;

/// The greatest width of a network input.
pub const INPUT_WIDTH_MAX: u32 = 8192;

/// How far neighbouring chunks of a long line overlap, in columns of a network input.
pub const OVERLAP_WIDTH: u32 = 128;

/// The greatest number of chunks of one line.
pub const CHUNKS_MAX: usize = 64;

/// A line image as network input.
pub struct RecognitionInput {
    /// The samples by channel (blue, green, red), row and column; nothing stands to the right of
    /// the image.
    pub tensor: Vec<Option<u8>>,
    /// The number of columns.
    pub width: usize,
}

/// The reason given for an image without pixels: `LimitError` of kind `DimensionError`, as the
/// `image` crate shows it.
#[verifier::external_body]
pub(crate) fn dimension_limit() -> (reason: String)
    ensures
        reason@ == "Image size exceeds limit"@,
{
    image::error::LimitError::from_kind(image::error::LimitErrorKind::DimensionError).to_string()
}

/// Whether an error says that an image has no pixels.
pub open spec fn is_dimension_error(error: OcrError) -> bool {
    error matches OcrError::Image(reason) && reason@ == "Image size exceeds limit"@
}

/// The width of an image after scaling it to the height of a network input, rounded up.
pub open spec fn scaled_width(width: u32, height: u32) -> int {
    arith::capped(arith::parts_needed(width * INPUT_HEIGHT, height as int))
}

/// The width of an image after scaling it to the height of a network input, rounded up.
fn resized_width(width: u32, height: u32) -> (resized: u32)
    requires
        width > 0,
        height > 0,
    ensures
        resized == scaled_width(width, height),
        resized > 0,
{
    assert(width as u64 * INPUT_HEIGHT as u64 <= u64::MAX) by (nonlinear_arith)
        requires
            width <= 0xffff_ffff,
            INPUT_HEIGHT == 48,
    ;
    let columns: u64 = arith::count_parts(width as u64 * INPUT_HEIGHT as u64, height as u64);
    proof {
        arith::lemma_parts_needed(width * INPUT_HEIGHT, height as int);
        assert(columns > 0) by {
            if columns == 0 {
                lemma_mul_basics_1(height as int);
            }
        }
    }
    if columns > 0xffff_ffff {
        0xffff_ffff
    } else {
        columns as u32
    }
}

/// The text of the error for a line image that is too wide.
pub open spec fn too_wide_text(resized: int) -> Seq<char> {
    "recognition input width "@ + text::decimal(resized as nat) + " exceeds maximum "@
        + text::decimal(INPUT_WIDTH_MAX as nat)
}

/// Whether an image has any pixels.
pub open spec fn has_pixels(image: image::DynamicImage) -> bool {
    picture::image_size(image).0 > 0 && picture::image_size(image).1 > 0
}

/// The width of `image` after scaling it to the height of a network input.
pub open spec fn image_scaled_width(image: image::DynamicImage) -> int {
    scaled_width(picture::image_size(image).0, picture::image_size(image).1)
}

/// Whether `input` holds an image that was scaled to the height of a network input, where `rgb` is
/// the scaled content; an image that has the right size already is taken as it is.
pub open spec fn is_input(
    input: RecognitionInput,
    image: image::DynamicImage,
    rgb: Seq<u8>,
) -> bool {
    let (width, height) = picture::image_size(image);
    let resized = scaled_width(width, height);
    &&& rgb.len() == resized * INPUT_HEIGHT * 3
    &&& width == resized && height == INPUT_HEIGHT ==> rgb == picture::rgb_bytes(image)
    &&& input.width == arith::greater(resized, INPUT_WIDTH_MIN as int)
    &&& input.tensor@ == picture::planar(
        rgb,
        resized,
        INPUT_HEIGHT as int,
        input.width as int,
        INPUT_HEIGHT as int,
    )
}

/// Whether `input` holds `image`, scaled to the height of a network input.
pub open spec fn is_prepared(input: RecognitionInput, image: image::DynamicImage) -> bool {
    exists|resized: image::DynamicImage| #[trigger]
        picture::scales_to(
            image,
            image_scaled_width(image) as u32,
            INPUT_HEIGHT,
            resized,
        ) && is_input(input, image, picture::rgb_bytes(resized))
}

/// Scales a line image to the height of a network input and lays it out.
pub fn preprocess(image: image::DynamicImage) -> (input: Result<RecognitionInput, OcrError>)
    ensures
        !has_pixels(image) ==> (input matches Err(error) && is_dimension_error(error)),
        has_pixels(image) && image_scaled_width(image) > INPUT_WIDTH_MAX ==> (input matches Err(
            OcrError::Runtime(reason),
        ) && reason@ == too_wide_text(image_scaled_width(image))),
        has_pixels(image) && image_scaled_width(image) <= INPUT_WIDTH_MAX ==> (input matches Ok(
            prepared,
        ) && is_prepared(prepared, image)),
{
    let (width, height) = picture::dimensions(&image);
    if width == 0 || height == 0 {
        return Err(OcrError::Image(dimension_limit()));
    }
    let resized: u32 = resized_width(width, height);
    if resized > INPUT_WIDTH_MAX {
        let mut reason = text::concat3(
            "recognition input width ",
            text::decimal_text(resized as u64).as_str(),
            " exceeds maximum ",
        );
        text::push_text(&mut reason, text::decimal_text(INPUT_WIDTH_MAX as u64).as_str());
        return Err(OcrError::Runtime(reason));
    }
    let input_width: u32 = if resized > INPUT_WIDTH_MIN {
        resized
    } else {
        INPUT_WIDTH_MIN
    };
    let scaled = picture::resize_exact(&image, resized, INPUT_HEIGHT);
    let rgb = picture::to_rgb8(&scaled);
    let tensor = picture::planar_bgr(
        rgb.as_slice(),
        resized,
        INPUT_HEIGHT,
        input_width,
        INPUT_HEIGHT,
    );
    let prepared = RecognitionInput { tensor, width: input_width as usize };
    assert(picture::scales_to(image, image_scaled_width(image) as u32, INPUT_HEIGHT, scaled));
    assert(is_input(prepared, image, picture::rgb_bytes(scaled)));
    Ok(prepared)
}

/// How the image of a line is obtained.
pub enum LineCrop {
    /// From one box, by straightening it.
    Straightened(TextBox),
    /// Cut out of the image.
    Cut(image::DynamicImage),
}

/// The least of `values`, or zero where there are none.
pub open spec fn least(values: Seq<u32>) -> u32
    decreases values.len(),
{
    if values.len() == 0 {
        0
    } else if values.len() == 1 {
        values[0]
    } else {
        arith::lesser(least(values.drop_last()) as int, values.last() as int) as u32
    }
}

/// The greatest of `values`, or zero where there are none.
pub open spec fn greatest(values: Seq<u32>) -> u32
    decreases values.len(),
{
    if values.len() == 0 {
        0
    } else if values.len() == 1 {
        values[0]
    } else {
        arith::greater(greatest(values.drop_last()) as int, values.last() as int) as u32
    }
}

/// The smallest upright rectangle round all of `boxes`.
pub open spec fn hull(boxes: Seq<TextBox>) -> crate::ocr::detection::Rect {
    crate::ocr::detection::Rect {
        left: least(boxes.map_values(|b: TextBox| b.bounds.left)),
        right: greatest(boxes.map_values(|b: TextBox| b.bounds.right)),
        top: least(boxes.map_values(|b: TextBox| b.bounds.top)),
        bottom: greatest(boxes.map_values(|b: TextBox| b.bounds.bottom)),
    }
}

/// The right end of a line's cut: one line height beyond the boxes, within the image.
pub open spec fn padded_right(bounds: crate::ocr::detection::Rect, width: u32) -> int {
    arith::lesser(arith::capped(bounds.right + bounds.rows()), width as int)
}

/// The smallest upright rectangle round all of `boxes`.
fn enclose(boxes: &[TextBox]) -> (bounds: crate::ocr::detection::Rect)
    ensures
        bounds == hull(boxes@),
{
    let ghost lefts = boxes@.map_values(|b: TextBox| b.bounds.left);
    let ghost rights = boxes@.map_values(|b: TextBox| b.bounds.right);
    let ghost tops = boxes@.map_values(|b: TextBox| b.bounds.top);
    let ghost bottoms = boxes@.map_values(|b: TextBox| b.bounds.bottom);
    if boxes.len() == 0 {
        return crate::ocr::detection::Rect { left: 0, right: 0, top: 0, bottom: 0 };
    }
    let mut bounds = boxes[0].bounds;
    assert(lefts.take(1).len() == 1 && lefts.take(1)[0] == bounds.left);
    for i in 1..boxes.len()
        invariant
            boxes@.len() > 0,
            lefts == boxes@.map_values(|b: TextBox| b.bounds.left),
            rights == boxes@.map_values(|b: TextBox| b.bounds.right),
            tops == boxes@.map_values(|b: TextBox| b.bounds.top),
            bottoms == boxes@.map_values(|b: TextBox| b.bounds.bottom),
            1 <= i,
            bounds.left == least(lefts.take(i as int)),
            bounds.top == least(tops.take(i as int)),
            bounds.right == greatest(rights.take(i as int)),
            bounds.bottom == greatest(bottoms.take(i as int)),
    {
        let next = boxes[i].bounds;
        assert(lefts.take(i + 1).drop_last() == lefts.take(i as int));
        assert(rights.take(i + 1).drop_last() == rights.take(i as int));
        assert(tops.take(i + 1).drop_last() == tops.take(i as int));
        assert(bottoms.take(i + 1).drop_last() == bottoms.take(i as int));
        if next.left < bounds.left {
            bounds.left = next.left;
        }
        if next.right > bounds.right {
            bounds.right = next.right;
        }
        if next.top < bounds.top {
            bounds.top = next.top;
        }
        if next.bottom > bounds.bottom {
            bounds.bottom = next.bottom;
        }
    }
    assert(lefts.take(boxes@.len() as int) == lefts);
    assert(rights.take(boxes@.len() as int) == rights);
    assert(tops.take(boxes@.len() as int) == tops);
    assert(bottoms.take(boxes@.len() as int) == bottoms);
    bounds
}

/// Whether an image stands upright: it is at least half as high again as it is wide.
pub open spec fn stands_upright(width: u32, height: u32) -> bool {
    2 * height >= 3 * width
}

/// Whether `turned` is `image`, lying: one that stands upright is turned by a quarter clockwise.
pub open spec fn is_lying(image: image::DynamicImage, turned: image::DynamicImage) -> bool {
    let (width, height) = picture::image_size(image);
    if stands_upright(width, height) {
        &&& picture::image_size(turned) == (height, width)
        &&& picture::rgb_bytes(turned) == picture::turned_bytes(
            picture::rgb_bytes(image),
            width as int,
            height as int,
        )
    } else {
        turned == image
    }
}

/// Turns the image of a straightened box so that the text lies.
pub fn lay_down(image: image::DynamicImage) -> (turned: image::DynamicImage)
    ensures
        is_lying(image, turned),
{
    let (width, height) = picture::dimensions(&image);
    if 2 * height as u64 >= 3 * width as u64 {
        picture::rotate90(&image)
    } else {
        image
    }
}

/// Whether `line` is the image of the line that `boxes` form: a single box is straightened, more
/// boxes are cut out together with some room to the right.
pub open spec fn is_line_crop(
    image: image::DynamicImage,
    boxes: Seq<TextBox>,
    line: Result<LineCrop, OcrError>,
) -> bool {
    let bounds = hull(boxes);
    let (width, height) = picture::image_size(image);
    let right = padded_right(bounds, width);
    if boxes.len() == 1 {
        line matches Ok(LineCrop::Straightened(text_box)) && text_box == boxes[0]
    } else if right <= bounds.left || bounds.bottom <= bounds.top {
        line matches Err(OcrError::Runtime(reason)) && reason@
            == "detected text line has invalid bounds"@
    } else {
        &&& line matches Ok(LineCrop::Cut(part))
        &&& picture::image_size(part) == (
            (right - bounds.left) as u32,
            picture::cut_size(bounds.top, (bounds.bottom - bounds.top) as u32, height),
        )
        &&& picture::rgb_bytes(part) == picture::cut_bytes(
            picture::rgb_bytes(image),
            width as int,
            bounds.left as int,
            bounds.top as int,
            picture::image_size(part).0 as int,
            picture::image_size(part).1 as int,
        )
    }
}

/// Obtains the image of a line: a single box is straightened, more boxes are cut out together
/// with some room to the right.
pub fn crop_line(image: &image::DynamicImage, text_boxes: &[TextBox]) -> (line: Result<
    LineCrop,
    OcrError,
>)
    ensures
        is_line_crop(*image, text_boxes@, line),
{
    if text_boxes.len() == 1 {
        return Ok(LineCrop::Straightened(text_boxes[0]));
    }
    let bounds = enclose(text_boxes);
    let (width, _) = picture::dimensions(image);
    let padded: u32 = arith::capped_sum(bounds.right, bounds.height());
    let right: u32 = if padded < width {
        padded
    } else {
        width
    };
    if right <= bounds.left || bounds.bottom <= bounds.top {
        return Err(OcrError::Runtime("detected text line has invalid bounds".to_owned()));
    }
    Ok(
        LineCrop::Cut(
            picture::crop_imm(
                image,
                bounds.left,
                bounds.top,
                right - bounds.left,
                bounds.bottom - bounds.top,
            ),
        ),
    )
}

/// The widest image of a given height that fits into a network input.
pub open spec fn chunk_width(height: u32) -> int {
    arith::capped(height * INPUT_WIDTH_MAX) / INPUT_HEIGHT as int
}

/// How far neighbouring chunks of a line of a given height overlap.
pub open spec fn chunk_overlap(height: u32) -> int {
    arith::lesser(
        arith::greater(
            arith::parts_needed(arith::capped(height * OVERLAP_WIDTH), INPUT_HEIGHT as int),
            1,
        ),
        chunk_width(height) - 1,
    )
}

/// How far a chunk begins behind the one before it.
pub open spec fn chunk_step(height: u32) -> int {
    chunk_width(height) - chunk_overlap(height)
}

/// The number of chunks that a line is cut into.
pub open spec fn chunk_count(width: u32, height: u32) -> int {
    if width <= chunk_width(height) {
        1
    } else {
        1 + arith::parts_needed(width - chunk_width(height), chunk_step(height))
    }
}

/// The first column of a chunk.
pub open spec fn chunk_left(k: int, height: u32) -> int {
    k * chunk_step(height)
}

/// The column behind a chunk's last one.
pub open spec fn chunk_right(k: int, width: u32, height: u32) -> int {
    arith::lesser(chunk_left(k, height) + chunk_width(height), width as int)
}

/// The text of the error for a line that would take too many chunks.
pub open spec fn too_many_chunks_text(count: int) -> Seq<char> {
    "text line requires "@ + text::decimal(count as nat) + " recognition chunks; maximum is "@
        + text::decimal(CHUNKS_MAX as nat)
}

/// Whether `part` is the `k`-th chunk of `image`.
pub open spec fn is_chunk(part: image::DynamicImage, image: image::DynamicImage, k: int) -> bool {
    let (width, height) = picture::image_size(image);
    let left = chunk_left(k, height);
    let columns = chunk_right(k, width, height) - left;
    &&& picture::image_size(part) == (columns as u32, height)
    &&& picture::rgb_bytes(part) == picture::cut_bytes(
        picture::rgb_bytes(image),
        width as int,
        left,
        0,
        columns,
        height as int,
    )
}

/// A chunk is at least 170 columns wide, and chunks advance by at least one column.
proof fn lemma_chunk_sizes(height: u32)
    requires
        height > 0,
    ensures
        chunk_width(height) >= 170,
        chunk_width(height) * 48 <= height * INPUT_WIDTH_MAX,
        chunk_width(height) <= u32::MAX,
        1 <= chunk_overlap(height) < chunk_width(height),
        chunk_step(height) >= 1,
{
    arith::lemma_parts_needed(arith::capped(height * OVERLAP_WIDTH), INPUT_HEIGHT as int);
}

/// The last chunk is the first one that reaches the end of the line.
proof fn lemma_chunk_ends(width: u32, height: u32, k: int)
    requires
        height > 0,
        width > chunk_width(height),
        0 <= k < chunk_count(width, height),
    ensures
        k < chunk_count(width, height) - 1 ==> chunk_right(k, width, height) == chunk_left(
            k,
            height,
        ) + chunk_width(height) && chunk_right(k, width, height) < width,
        k == chunk_count(width, height) - 1 ==> chunk_right(k, width, height) == width,
        0 <= chunk_left(k, height) < width,
        chunk_left(k, height) < chunk_right(k, width, height),
{
    lemma_chunk_sizes(height);
    let step = chunk_step(height);
    let rest = width - chunk_width(height);
    let last = arith::parts_needed(rest, step);
    arith::lemma_parts_needed(rest, step);
    assert(k < last ==> k * step <= (last - 1) * step) by (nonlinear_arith)
        requires
            step >= 1,
    ;
    assert(0 <= k * step) by (nonlinear_arith)
        requires
            step >= 1,
            0 <= k,
    ;
    if k == last {
        assert(k * step == (last - 1) * step + step) by (nonlinear_arith)
            requires
                k == last,
        ;
    }
}

/// Cuts the image of a long line into overlapping chunks that each fit into a network input.
pub fn split(image: image::DynamicImage) -> (chunks: Result<Vec<image::DynamicImage>, OcrError>)
    ensures
        ({
            let (width, height) = picture::image_size(image);
            if width == 0 || height == 0 {
                chunks matches Err(error) && is_dimension_error(error)
            } else if width <= chunk_width(height) {
                chunks matches Ok(chunks) && chunks@ == seq![image]
            } else if chunk_count(width, height) > CHUNKS_MAX {
                chunks matches Err(OcrError::Runtime(reason)) && reason@ == too_many_chunks_text(
                    chunk_count(width, height),
                )
            } else {
                &&& chunks matches Ok(chunks)
                &&& chunks@.len() == chunk_count(width, height)
                &&& forall|k: int|
                    0 <= k < chunks@.len() ==> is_chunk(#[trigger] chunks@[k], image, k)
            }
        }),
{
    let (width, height) = picture::dimensions(&image);
    if width == 0 || height == 0 {
        return Err(OcrError::Image(dimension_limit()));
    }
    proof {
        lemma_chunk_sizes(height);
    }
    let width_max: u32 = arith::capped_product(height, INPUT_WIDTH_MAX) / INPUT_HEIGHT;
    if width <= width_max {
        let mut chunks: Vec<image::DynamicImage> = Vec::new();
        chunks.push(image);
        assert(chunks@ == seq![image]);
        return Ok(chunks);
    }
    let needed: u32 = arith::count_parts(
        arith::capped_product(height, OVERLAP_WIDTH) as u64,
        INPUT_HEIGHT as u64,
    ) as u32;
    let wanted: u32 = if needed > 1 {
        needed
    } else {
        1
    };
    let overlap: u32 = if wanted < width_max - 1 {
        wanted
    } else {
        width_max - 1
    };
    let step: u32 = width_max - overlap;
    let count: u32 = 1 + arith::count_parts((width - width_max) as u64, step as u64) as u32;
    if count as usize > CHUNKS_MAX {
        let mut reason = text::concat3(
            "text line requires ",
            text::decimal_text(count as u64).as_str(),
            " recognition chunks; maximum is ",
        );
        text::push_text(&mut reason, text::decimal_text(CHUNKS_MAX as u64).as_str());
        return Err(OcrError::Runtime(reason));
    }
    let mut chunks: Vec<image::DynamicImage> = Vec::new();
    let mut left: u32 = 0;
    assert(chunk_left(0, height) == 0) by {
        lemma_mul_basics_1(chunk_step(height));
    }
    loop
        invariant_except_break
            chunks@.len() < count,
            left == chunk_left(chunks@.len() as int, height),
        invariant
            picture::image_size(image) == (width, height),
            height > 0,
            width > chunk_width(height),
            width_max == chunk_width(height),
            overlap == chunk_overlap(height),
            count == chunk_count(width, height),
            forall|k: int| 0 <= k < chunks@.len() ==> is_chunk(#[trigger] chunks@[k], image, k),
        ensures
            chunks@.len() == count,
        decreases count - chunks@.len(),
    {
        let ghost k = chunks@.len() as int;
        proof {
            lemma_chunk_sizes(height);
            lemma_chunk_ends(width, height, k);
        }
        let reach: u32 = arith::capped_sum(left, width_max);
        let right: u32 = if reach < width {
            reach
        } else {
            width
        };
        chunks.push(picture::crop_imm(&image, left, 0, right - left, height));
        if right == width {
            break;
        }
        assert(chunk_left(k + 1, height) == chunk_left(k, height) + chunk_step(height))
            by (nonlinear_arith)
            requires
                chunk_left(k + 1, height) == (k + 1) * chunk_step(height),
                chunk_left(k, height) == k * chunk_step(height),
        ;
        left = right - overlap;
    }
    Ok(chunks)
}

/// The chunks of a line begin and end with it, each overlaps the one before it by the same number
/// of columns, and each fits into a network input.
pub proof fn law_chunks_cover_line(width: u32, height: u32, k: int)
    requires
        width > 0,
        height > 0,
        0 <= k < chunk_count(width, height),
    ensures
        chunk_left(0, height) == 0,
        chunk_right(chunk_count(width, height) - 1, width, height) == width,
        k > 0 ==> chunk_right(k - 1, width, height) - chunk_left(k, height) == chunk_overlap(
            height,
        ),
        0 < chunk_right(k, width, height) - chunk_left(k, height) <= chunk_width(height),
        scaled_width((chunk_right(k, width, height) - chunk_left(k, height)) as u32, height)
            <= INPUT_WIDTH_MAX,
{
    lemma_chunk_sizes(height);
    lemma_mul_basics_1(chunk_step(height));
    let step = chunk_step(height);
    if width > chunk_width(height) {
        lemma_chunk_ends(width, height, k);
        arith::lemma_parts_needed(width - chunk_width(height), step);
        assert(chunk_count(width, height) >= 1) by {
            lemma_div_pos_is_pos(width - chunk_width(height) + step - 1, step);
        }
        lemma_chunk_ends(width, height, chunk_count(width, height) - 1);
        if k > 0 {
            lemma_chunk_ends(width, height, k - 1);
            assert(k * step == (k - 1) * step + step) by (nonlinear_arith);
        }
    }
    let columns = (chunk_right(k, width, height) - chunk_left(k, height)) as u32;
    lemma_chunk_fits(columns, height);
}

/// An image that is not wider than a chunk fits into a network input.
proof fn lemma_chunk_fits(columns: u32, height: u32)
    requires
        height > 0,
        columns <= chunk_width(height),
    ensures
        scaled_width(columns, height) <= INPUT_WIDTH_MAX,
{
    lemma_chunk_sizes(height);
    let needed = arith::parts_needed(columns * INPUT_HEIGHT, height as int);
    arith::lemma_parts_needed(columns * INPUT_HEIGHT, height as int);
    if needed > INPUT_WIDTH_MAX {
        assert((needed - 1) * height >= INPUT_WIDTH_MAX * height) by (nonlinear_arith)
            requires
                needed - 1 >= INPUT_WIDTH_MAX,
                height > 0,
        ;
    }
}

/// Splitting never yields a chunk that preparing it would refuse.
pub proof fn law_chunks_can_be_prepared(image: image::DynamicImage, part: image::DynamicImage, k: int)
    requires
        picture::image_size(image).0 > 0,
        picture::image_size(image).1 > 0,
        0 <= k < chunk_count(picture::image_size(image).0, picture::image_size(image).1),
        is_chunk(part, image, k),
    ensures
        picture::image_size(part).0 > 0,
        picture::image_size(part).1 > 0,
        scaled_width(picture::image_size(part).0, picture::image_size(part).1) <= INPUT_WIDTH_MAX,
{
    let (width, height) = picture::image_size(image);
    law_chunks_cover_line(width, height, k);
}

/// The place of a single-precision number, given by its bits, in the total order of such numbers:
/// negative before positive, the sign of zero counts, and a not-a-number stands beyond the
/// infinity of its sign.
pub open spec fn total_order(bits: u32) -> int {
    if bits < 0x8000_0000 {
        bits as int
    } else {
        0x7fff_ffff - bits
    }
}

/// The position of the greatest of `values` in the total order, the last one among equals.
pub open spec fn peak(values: Seq<u32>) -> int
    decreases values.len(),
{
    if values.len() <= 1 {
        0
    } else {
        let before = peak(values.drop_last());
        if total_order(values.last()) >= total_order(values[before]) {
            values.len() - 1
        } else {
            before
        }
    }
}

/// The number of classes: the characters, the blank and the space.
pub open spec fn class_count(charset: Seq<char>) -> nat {
    charset.len() + 2
}

/// The scores of one time step.
pub open spec fn time_step(values: Seq<u32>, classes: int, t: int) -> Seq<u32> {
    values.subrange(t * classes, (t + 1) * classes)
}

/// The winning class of every time step.
pub open spec fn winners(values: Seq<u32>, classes: int) -> Seq<int> {
    Seq::new(
        (values.len() / classes as nat) as nat,
        |t: int| peak(time_step(values, classes, t)),
    )
}

/// The character of a class that is neither blank nor space, where there is one.
pub open spec fn class_char(class: int, charset: Seq<char>) -> Option<char> {
    let position = arith::excess(class, 1);
    if position < charset.len() {
        Some(charset[position])
    } else {
        None
    }
}

/// The text that a run of classes stands for: blanks and repeats of the class before are left
/// away. A class without a character is an error.
pub open spec fn spelled(
    classes: Seq<int>,
    charset: Seq<char>,
    blank: int,
    space: int,
) -> Result<Seq<char>, int>
    decreases classes.len(),
{
    if classes.len() == 0 {
        Ok(Seq::empty())
    } else {
        let class = classes.last();
        let previous = if classes.len() > 1 {
            classes[classes.len() - 2]
        } else {
            blank
        };
        match spelled(classes.drop_last(), charset, blank, space) {
            Err(invalid) => Err(invalid),
            Ok(before) => if class == blank || class == previous {
                Ok(before)
            } else if class == space {
                Ok(before.push(' '))
            } else {
                match class_char(class, charset) {
                    Some(character) => Ok(before.push(character)),
                    None => Err(class),
                }
            },
        }
    }
}

/// The text of the error for an output that does not divide into time steps.
pub open spec fn not_divisible_text(length: nat, classes: nat) -> Seq<char> {
    "model output length "@ + text::decimal(length) + " is not divisible by class count "@
        + text::decimal(classes)
}

/// The text of the error for a class without a character.
pub open spec fn invalid_class_text(class: nat) -> Seq<char> {
    "model returned invalid class index "@ + text::decimal(class)
}

/// A class without a character stops the reading for good.
proof fn lemma_error_stays(classes: Seq<int>, charset: Seq<char>, blank: int, space: int, t: int)
    requires
        0 <= t <= classes.len(),
        spelled(classes.take(t), charset, blank, space) is Err,
    ensures
        spelled(classes, charset, blank, space) == spelled(classes.take(t), charset, blank, space),
    decreases classes.len() - t,
{
    if t == classes.len() {
        assert(classes.take(t) == classes);
    } else {
        assert(classes.take(t + 1).drop_last() == classes.take(t));
        lemma_error_stays(classes, charset, blank, space, t + 1);
    }
}

/// The place of a number in the total order.
fn order_key(bits: u32) -> (key: i64)
    ensures
        key == total_order(bits),
{
    if bits < 0x8000_0000 {
        bits as i64
    } else {
        0x7fff_ffff - bits as i64
    }
}

/// Finds the position of the greatest value, the last one among equals.
fn find_peak(values: &[u32]) -> (position: usize)
    requires
        values@.len() > 0,
    ensures
        position == peak(values@),
        position < values@.len(),
{
    let mut position: usize = 0;
    assert(peak(values@.take(1)) == 0);
    for i in 1..values.len()
        invariant
            position == peak(values@.take(i as int)),
            position < i <= values@.len(),
    {
        assert(values@.take(i + 1).drop_last() == values@.take(i as int));
        if order_key(values[i]) >= order_key(values[position]) {
            position = i;
        }
    }
    assert(values@.take(values@.len() as int) == values@);
    position
}

/// Reads the network's output, given by the bits of its scores: the winning class of every time
/// step, without blanks and repeats.
pub fn decode_ctc(
    values: &[u32],
    charset: &[char],
    blank_index: usize,
    space_index: usize,
) -> (decoded: Result<String, OcrError>)
    requires
        charset@.len() + 2 <= usize::MAX,
    ensures
        values@.len() % class_count(charset@) != 0 ==> (decoded matches Err(
            OcrError::Runtime(reason),
        ) && reason@ == not_divisible_text(values@.len(), class_count(charset@))),
        values@.len() % class_count(charset@) == 0 ==> (match spelled(
            winners(values@, class_count(charset@) as int),
            charset@,
            blank_index as int,
            space_index as int,
        ) {
            Ok(text) => decoded matches Ok(decoded) && decoded@ == text,
            Err(class) => decoded matches Err(OcrError::Runtime(reason)) && reason@
                == invalid_class_text(class as nat),
        }),
{
    let classes: usize = charset.len() + 2;
    if values.len() % classes != 0 {
        let mut reason = text::concat3(
            "model output length ",
            text::decimal_text(values.len() as u64).as_str(),
            " is not divisible by class count ",
        );
        text::push_text(&mut reason, text::decimal_text(classes as u64).as_str());
        return Err(OcrError::Runtime(reason));
    }
    let total: usize = values.len();
    let steps: usize = total / classes;
    let ghost run = winners(values@, classes as int);
    proof {
        lemma_fundamental_div_mod(values@.len() as int, classes as int);
        lemma_mul_is_commutative(classes as int, steps as int);
    }
    let mut text = String::new();
    let mut previous: usize = blank_index;
    assert(run.take(0) == Seq::<int>::empty());
    for t in 0..steps
        invariant
            classes == charset@.len() + 2,
            total == values@.len(),
            total % classes == 0,
            steps * classes == total,
            run == winners(values@, classes as int),
            run.len() == steps,
            spelled(run.take(t as int), charset@, blank_index as int, space_index as int) == Ok::<
                Seq<char>,
                int,
            >(text@),
            previous == (if t == 0 {
                blank_index as int
            } else {
                run[t - 1]
            }),
    {
        assert(0 <= t * classes && (t + 1) * classes <= steps * classes && (t + 1) * classes == t
            * classes + classes) by (nonlinear_arith)
            requires
                t < steps,
                0 <= classes,
        ;
        let from: usize = t * classes;
        let step = slice_subrange(values, from, from + classes);
        assert(step@ == time_step(values@, classes as int, t as int));
        let class: usize = find_peak(step);
        assert(run[t as int] == class);
        assert(run.take(t + 1).drop_last() == run.take(t as int));
        assert(run.take(t + 1).last() == class);
        if t > 0 {
            assert(run.take(t + 1)[t - 1] == run[t - 1]);
        }
        if class != blank_index && class != previous {
            if class == space_index {
                text.push(' ');
            } else {
                let position: usize = class.saturating_sub(1);
                if position < charset.len() {
                    text.push(charset[position]);
                } else {
                    proof {
                        lemma_error_stays(
                            run,
                            charset@,
                            blank_index as int,
                            space_index as int,
                            t + 1,
                        );
                    }
                    return Err(
                        OcrError::Runtime(
                            text::concat(
                                "model returned invalid class index ",
                                text::decimal_text(class as u64).as_str(),
                            ),
                        ),
                    );
                }
            }
        }
        previous = class;
    }
    assert(run.take(steps as int) == run);
    Ok(text)
}

/// The winning position is within range; nothing before it is greater, and everything behind it
/// is less.
pub proof fn law_peak(values: Seq<u32>)
    requires
        values.len() > 0,
    ensures
        0 <= peak(values) < values.len(),
        forall|i: int|
            0 <= i <= peak(values) ==> total_order(#[trigger] values[i]) <= total_order(
                values[peak(values)],
            ),
        forall|i: int|
            peak(values) < i < values.len() ==> total_order(#[trigger] values[i]) < total_order(
                values[peak(values)],
            ),
    decreases values.len(),
{
    if values.len() > 1 {
        let shorter = values.drop_last();
        law_peak(shorter);
        assert forall|i: int| 0 <= i < shorter.len() implies #[trigger] values[i] == shorter[i] by {}
    }
}

/// A time step that repeats the class of the one before it adds nothing to the text.
pub proof fn law_repeat_adds_nothing(
    classes: Seq<int>,
    charset: Seq<char>,
    blank: int,
    space: int,
)
    requires
        classes.len() > 0,
    ensures
        spelled(classes.push(classes.last()), charset, blank, space) == spelled(
            classes,
            charset,
            blank,
            space,
        ),
{
    assert(classes.push(classes.last()).drop_last() == classes);
}

/// A blank adds nothing to the text.
pub proof fn law_blank_adds_nothing(classes: Seq<int>, charset: Seq<char>, blank: int, space: int)
    ensures
        spelled(classes.push(blank), charset, blank, space) == spelled(
            classes,
            charset,
            blank,
            space,
        ),
{
    assert(classes.push(blank).drop_last() == classes);
}

/// A blank between two equal classes makes both of them count.
pub proof fn law_blank_parts_repeats(
    classes: Seq<int>,
    charset: Seq<char>,
    blank: int,
    space: int,
    class: int,
)
    requires
        class != blank,
        class != space,
        class_char(class, charset) is Some,
        spelled(classes.push(class), charset, blank, space) is Ok,
    ensures
        spelled(classes.push(class).push(blank).push(class), charset, blank, space) == Ok::<
            Seq<char>,
            int,
        >(
            spelled(classes.push(class), charset, blank, space)->Ok_0.push(
                class_char(class, charset)->0,
            ),
        ),
{
    let first = classes.push(class);
    let second = first.push(blank);
    let third = second.push(class);
    law_blank_adds_nothing(first, charset, blank, space);
    assert(third.drop_last() == second);
    assert(third[third.len() - 2] == blank);
}

/// No more characters are read than there are time steps.
pub proof fn law_text_not_longer_than_steps(
    classes: Seq<int>,
    charset: Seq<char>,
    blank: int,
    space: int,
)
    ensures
        spelled(classes, charset, blank, space) matches Ok(text) ==> text.len() <= classes.len(),
    decreases classes.len(),
{
    if classes.len() > 0 {
        law_text_not_longer_than_steps(classes.drop_last(), charset, blank, space);
    }
}

/// What a run of classes reads as is settled class by class: no class reads as no text; a class
/// that is blank, or that the class before it was already, adds nothing; the space adds a space; any
/// other class adds the very character that the character set lists for it, counted from one, where
/// the class zero, if it is not blank, counts as one; a class beyond the character set is an error,
/// and so is everything that begins with it.
pub proof fn law_class_adds_its_character(
    classes: Seq<int>,
    charset: Seq<char>,
    blank: int,
    space: int,
    class: int,
)
    requires
        class >= 0,
    ensures
        spelled(Seq::empty(), charset, blank, space) == Ok::<Seq<char>, int>(Seq::empty()),
        1 <= class <= charset.len() && class != blank && class != space ==> spelled(
            seq![class],
            charset,
            blank,
            space,
        ) == Ok::<Seq<char>, int>(seq![charset[class - 1]]),
        spelled(classes, charset, blank, space) matches Err(invalid) ==> spelled(
            classes.push(class),
            charset,
            blank,
            space,
        ) == Err::<Seq<char>, int>(invalid),
        spelled(classes, charset, blank, space) matches Ok(before) ==> {
            let after = spelled(classes.push(class), charset, blank, space);
            let repeated = classes.len() > 0 && classes[classes.len() - 1] == class;
            &&& class == blank || repeated ==> after == Ok::<Seq<char>, int>(before)
            &&& class != blank && !repeated && class == space ==> after == Ok::<Seq<char>, int>(
                before.push(' '),
            )
            &&& class != blank && !repeated && class != space && 1 <= class <= charset.len() ==> after
                == Ok::<Seq<char>, int>(before.push(charset[class - 1]))
            &&& class != blank && !repeated && class != space && class == 0 && charset.len() > 0
                ==> after == Ok::<Seq<char>, int>(before.push(charset[0]))
            &&& class != blank && !repeated && class != space && class > charset.len() ==> after
                == Err::<Seq<char>, int>(class)
        },
{
    assert(classes.push(class).drop_last() == classes);
    let none = Seq::<int>::empty();
    assert(seq![class].drop_last() == none);
    assert(spelled(none, charset, blank, space) == Ok::<Seq<char>, int>(Seq::empty()));
    if 1 <= class <= charset.len() {
        assert(Seq::<char>::empty().push(charset[class - 1]) == seq![charset[class - 1]]);
    }
}

/// Where a text was read, every character of it is a space or stands in the character set, and where
/// no class is invalid a text is read.
pub proof fn law_text_is_made_of_the_charset(
    classes: Seq<int>,
    charset: Seq<char>,
    blank: int,
    space: int,
)
    requires
        forall|t: int| 0 <= t < classes.len() ==> 0 <= #[trigger] classes[t],
    ensures
        spelled(classes, charset, blank, space) matches Ok(text) ==> forall|i: int|
            0 <= i < text.len() ==> #[trigger] text[i] == ' ' || charset.contains(text[i]),
        (forall|t: int|
            0 <= t < classes.len() ==> (#[trigger] classes[t] == blank || classes[t] == space || 1
                <= classes[t] <= charset.len())) ==> spelled(classes, charset, blank, space) is Ok,
    decreases classes.len(),
{
    if classes.len() > 0 {
        let fewer = classes.drop_last();
        let last = classes.last();
        assert(classes[classes.len() - 1] == last);
        assert forall|t: int| 0 <= t < fewer.len() implies 0 <= #[trigger] fewer[t] by {
            assert(fewer[t] == classes[t]);
        }
        law_text_is_made_of_the_charset(fewer, charset, blank, space);
        if forall|t: int|
            0 <= t < classes.len() ==> (#[trigger] classes[t] == blank || classes[t] == space || 1
                <= classes[t] <= charset.len()) {
            assert forall|t: int| 0 <= t < fewer.len() implies (#[trigger] fewer[t] == blank
                || fewer[t] == space || 1 <= fewer[t] <= charset.len()) by {
                assert(fewer[t] == classes[t]);
            }
        }
        assert(fewer.push(last) == classes);
        law_class_adds_its_character(fewer, charset, blank, space, last);
        if charset.len() > 0 {
            assert(charset.contains(charset[0]));
        }
        if 1 <= last <= charset.len() {
            assert(charset.contains(charset[last - 1]));
        }
    }
}

/// Numbers without a sign are ordered as their bits are, numbers with one the other way round and
/// before those without.
pub proof fn law_total_order(a: u32, b: u32)
    ensures
        a < 0x8000_0000 && b < 0x8000_0000 ==> (total_order(a) < total_order(b) <==> a < b),
        a >= 0x8000_0000 && b >= 0x8000_0000 ==> (total_order(a) < total_order(b) <==> b < a),
        a >= 0x8000_0000 && b < 0x8000_0000 ==> total_order(a) < total_order(b),
        total_order(a) == total_order(b) <==> a == b,
{
}

/// The scores divide into time steps of one score per class, the character set's classes and two
/// more. The winner of a time step is the class whose score none of the others exceeds; of several
/// such classes it is the last.
pub proof fn law_winner_has_the_greatest_score(values: Seq<u32>, charset: Seq<char>, t: int, class: int)
    requires
        values.len() % (charset.len() + 2) == 0,
        0 <= t < values.len() / (charset.len() + 2),
        0 <= class < charset.len() + 2,
    ensures
        class_count(charset) == charset.len() + 2,
        winners(values, class_count(charset) as int).len() == values.len() / (charset.len() + 2),
        ({
            let size = charset.len() + 2;
            let winner = winners(values, class_count(charset) as int)[t];
            &&& 0 <= winner < size
            &&& 0 <= t * size + class < values.len()
            &&& total_order(values[t * size + class]) <= total_order(values[t * size + winner])
            &&& class > winner ==> total_order(values[t * size + class]) < total_order(
                values[t * size + winner],
            )
        }),
{
    let size = (charset.len() + 2) as int;
    lemma_fundamental_div_mod(values.len() as int, size);
    let steps = values.len() as int / size;
    assert((t + 1) * size <= steps * size && t * size + size == (t + 1) * size && 0 <= t * size)
        by (nonlinear_arith)
        requires
            0 <= t < steps,
            size > 0,
    ;
    lemma_mul_is_commutative(size, steps);
    let step = time_step(values, size, t);
    law_peak(step);
    assert(step[class] == values[t * size + class]);
    assert(step[peak(step)] == values[t * size + peak(step)]);
}

/// Scaling to the height of a network input keeps the proportions, but for rounding the width up to
/// whole columns.
pub proof fn law_scaling_keeps_proportions(width: u32, height: u32)
    requires
        width > 0,
        height > 0,
    ensures
        scaled_width(width, height) > 0,
        width * 48 <= u32::MAX * height ==> {
            &&& scaled_width(width, height) * height >= width * 48
            &&& (scaled_width(width, height) - 1) * height < width * 48
        },
        width * 48 > u32::MAX * height ==> scaled_width(width, height) == u32::MAX,
        height == 48 && width * 48 <= u32::MAX * height ==> scaled_width(width, height) == width,
{
    let needed = arith::parts_needed(width * INPUT_HEIGHT, height as int);
    arith::lemma_parts_needed(width * INPUT_HEIGHT, height as int);
    assert(needed > 0) by (nonlinear_arith)
        requires
            needed * height >= width * 48,
            width > 0,
            height > 0,
    ;
    if width * 48 <= u32::MAX * height {
        assert(needed <= u32::MAX) by (nonlinear_arith)
            requires
                (needed - 1) * height < width * 48,
                width * 48 <= u32::MAX * height,
                height > 0,
        ;
        if height == 48 {
            assert(needed * height == needed * 48 && (needed - 1) * height == needed * 48 - 48)
                by (nonlinear_arith)
                requires
                    height == 48,
            ;
        }
    } else {
        assert(needed > u32::MAX) by (nonlinear_arith)
            requires
                needed * height >= width * 48,
                width * 48 > u32::MAX * height,
                height > 0,
        ;
    }
}

/// A prepared line is as wide as its scaled image, and at least 320 columns; at every place it holds
/// the blue, the green or the red byte of the scaled image's pixel at that place, and nothing beyond
/// the image.
pub proof fn law_prepared_line_holds_the_image(
    input: RecognitionInput,
    image: image::DynamicImage,
    rgb: Seq<u8>,
    channel: int,
    x: int,
    y: int,
)
    requires
        is_input(input, image, rgb),
        0 <= channel < 3,
        0 <= x < input.width,
        0 <= y < 48,
    ensures
        ({
            let columns = scaled_width(picture::image_size(image).0, picture::image_size(image).1);
            let at = channel * (input.width * 48) + y * input.width + x;
            &&& columns <= input.width
            &&& input.width >= 320
            &&& input.width == columns || input.width == 320
            &&& input.tensor@.len() == 3 * (input.width * 48)
            &&& 0 <= at < input.tensor@.len()
            &&& x < columns && channel == 0 ==> input.tensor@[at] == Some(
                rgb[(y * columns + x) * 3 + 2],
            )
            &&& x < columns && channel == 1 ==> input.tensor@[at] == Some(
                rgb[(y * columns + x) * 3 + 1],
            )
            &&& x < columns && channel == 2 ==> input.tensor@[at] == Some(
                rgb[(y * columns + x) * 3],
            )
            &&& x >= columns ==> input.tensor@[at] == None::<u8>
        }),
{
    let columns = scaled_width(picture::image_size(image).0, picture::image_size(image).1);
    picture::law_channels_are_blue_green_red(
        rgb,
        columns,
        48,
        input.width as int,
        48,
        channel,
        x,
        y,
    );
}

proof fn lemma_least(values: Seq<u32>)
    requires
        values.len() > 0,
    ensures
        forall|i: int| 0 <= i < values.len() ==> least(values) <= #[trigger] values[i],
        values.contains(least(values)),
    decreases values.len(),
{
    if values.len() > 1 {
        let fewer = values.drop_last();
        lemma_least(fewer);
        assert forall|i: int| 0 <= i < values.len() implies least(values) <= #[trigger] values[i] by {
            if i < fewer.len() {
                assert(fewer[i] == values[i]);
            }
        }
        let i = choose|i: int| 0 <= i < fewer.len() && fewer[i] == least(fewer);
        assert(values[i] == least(fewer));
        assert(values[values.len() - 1] == values.last());
    } else {
        assert(values[0] == least(values));
    }
}

proof fn lemma_greatest(values: Seq<u32>)
    requires
        values.len() > 0,
    ensures
        forall|i: int| 0 <= i < values.len() ==> greatest(values) >= #[trigger] values[i],
        values.contains(greatest(values)),
    decreases values.len(),
{
    if values.len() > 1 {
        let fewer = values.drop_last();
        lemma_greatest(fewer);
        assert forall|i: int| 0 <= i < values.len() implies greatest(values)
            >= #[trigger] values[i] by {
            if i < fewer.len() {
                assert(fewer[i] == values[i]);
            }
        }
        let i = choose|i: int| 0 <= i < fewer.len() && fewer[i] == greatest(fewer);
        assert(values[i] == greatest(fewer));
        assert(values[values.len() - 1] == values.last());
    } else {
        assert(values[0] == greatest(values));
    }
}

/// The rectangle of a line encloses every one of its boxes, and is no larger than that: each of its
/// edges is the edge of a box.
pub proof fn law_line_encloses_its_boxes(boxes: Seq<TextBox>, i: int)
    requires
        0 <= i < boxes.len(),
    ensures
        hull(boxes).left <= boxes[i].bounds.left,
        hull(boxes).right >= boxes[i].bounds.right,
        hull(boxes).top <= boxes[i].bounds.top,
        hull(boxes).bottom >= boxes[i].bounds.bottom,
        exists|k: int| 0 <= k < boxes.len() && (#[trigger] boxes[k]).bounds.left == hull(boxes).left,
        exists|k: int| 0 <= k < boxes.len() && (#[trigger] boxes[k]).bounds.right == hull(boxes).right,
        exists|k: int| 0 <= k < boxes.len() && (#[trigger] boxes[k]).bounds.top == hull(boxes).top,
        exists|k: int|
            0 <= k < boxes.len() && (#[trigger] boxes[k]).bounds.bottom == hull(boxes).bottom,
{
    let lefts = boxes.map_values(|b: TextBox| b.bounds.left);
    let rights = boxes.map_values(|b: TextBox| b.bounds.right);
    let tops = boxes.map_values(|b: TextBox| b.bounds.top);
    let bottoms = boxes.map_values(|b: TextBox| b.bounds.bottom);
    lemma_least(lefts);
    lemma_greatest(rights);
    lemma_least(tops);
    lemma_greatest(bottoms);
    assert(lefts[i] == boxes[i].bounds.left && rights[i] == boxes[i].bounds.right);
    assert(tops[i] == boxes[i].bounds.top && bottoms[i] == boxes[i].bounds.bottom);
    let a = choose|k: int| 0 <= k < lefts.len() && lefts[k] == least(lefts);
    let b = choose|k: int| 0 <= k < rights.len() && rights[k] == greatest(rights);
    let c = choose|k: int| 0 <= k < tops.len() && tops[k] == least(tops);
    let d = choose|k: int| 0 <= k < bottoms.len() && bottoms[k] == greatest(bottoms);
    assert(boxes[a].bounds.left == hull(boxes).left);
    assert(boxes[b].bounds.right == hull(boxes).right);
    assert(boxes[c].bounds.top == hull(boxes).top);
    assert(boxes[d].bounds.bottom == hull(boxes).bottom);
}

/// To the right of its boxes a line has room for one more box as wide as the line is high, as far as
/// the image goes.
pub proof fn law_room_to_the_right(bounds: crate::ocr::detection::Rect, width: u32)
    requires
        bounds.top <= bounds.bottom,
    ensures
        bounds.right + (bounds.bottom - bounds.top) <= width ==> padded_right(bounds, width)
            == bounds.right + (bounds.bottom - bounds.top),
        bounds.right + (bounds.bottom - bounds.top) >= width ==> padded_right(bounds, width) == width,
{
}

/// The cut of a line shows all of its boxes: every pixel of the image within one of the boxes is a
/// pixel of the cut, as many columns and rows from its edges as from the line's rectangle.
pub proof fn law_cut_shows_every_box(
    image: image::DynamicImage,
    boxes: Seq<TextBox>,
    line: Result<LineCrop, OcrError>,
    i: int,
    x: int,
    y: int,
    channel: int,
)
    requires
        is_line_crop(image, boxes, line),
        boxes.len() != 1,
        line is Ok,
        0 <= i < boxes.len(),
        boxes[i].bounds.left <= x < boxes[i].bounds.right,
        boxes[i].bounds.top <= y < boxes[i].bounds.bottom,
        x < picture::image_size(image).0,
        y < picture::image_size(image).1,
        0 <= channel < 3,
    ensures
        line matches Ok(LineCrop::Cut(part)) && ({
            let (column, row) = (x - hull(boxes).left, y - hull(boxes).top);
            let (columns, rows) = picture::image_size(part);
            &&& 0 <= column < columns
            &&& 0 <= row < rows
            &&& picture::rgb_bytes(part)[(row * columns + column) * 3 + channel]
                == picture::rgb_bytes(image)[(y * picture::image_size(image).0 + x) * 3 + channel]
        }),
{
    law_line_encloses_its_boxes(boxes, i);
    let bounds = hull(boxes);
    let (width, height) = picture::image_size(image);
    law_room_to_the_right(bounds, width);
    let part = line->Ok_0->Cut_0;
    let (columns, rows) = picture::image_size(part);
    picture::law_cut_keeps_pixels(
        picture::rgb_bytes(image),
        width as int,
        bounds.left as int,
        bounds.top as int,
        columns as int,
        rows as int,
        x - bounds.left,
        y - bounds.top,
        channel,
    );
}

/// An image that is turned is one whose height exceeds its width by at least half of the width; what
/// comes of it does not have to be turned again.
pub proof fn law_turned_images_lie(width: u32, height: u32)
    requires
        width > 0,
        height > 0,
    ensures
        stands_upright(width, height) <==> 2 * (height - width) >= width,
        stands_upright(width, height) ==> !stands_upright(height, width),
{
}

/// Turning an image puts its first row into the last column, from top to bottom.
pub proof fn law_lying_image_is_turned_clockwise(
    image: image::DynamicImage,
    turned: image::DynamicImage,
    x: int,
    y: int,
    channel: int,
)
    requires
        is_lying(image, turned),
        0 <= x < picture::image_size(image).0,
        0 <= y < picture::image_size(image).1,
        2 * picture::image_size(image).1 >= 3 * picture::image_size(image).0,
        0 <= channel < 3,
    ensures
        ({
            let (width, height) = picture::image_size(image);
            &&& picture::image_size(turned) == (height, width)
            &&& picture::rgb_bytes(turned)[(x * height + (height - 1 - y)) * 3 + channel]
                == picture::rgb_bytes(image)[(y * width + x) * 3 + channel]
        }),
{
    let (width, height) = picture::image_size(image);
    picture::law_turn_keeps_pixels(
        picture::rgb_bytes(image),
        width as int,
        height as int,
        x,
        y,
        channel,
    );
}

/// A chunk is as wide as a network input of 8192 columns and 48 rows has room for, and neighbouring
/// chunks share as many columns as make 128 of the network input, rounded up; only lines over half a
/// million rows high are an exception.
pub proof fn law_chunks_fill_the_input(height: u32)
    requires
        0 < height,
        height * 8192 <= u32::MAX,
    ensures
        chunk_width(height) * 48 <= height * 8192 < (chunk_width(height) + 1) * 48,
        (chunk_overlap(height) - 1) * 48 < height * 128 <= chunk_overlap(height) * 48,
        chunk_step(height) + chunk_overlap(height) == chunk_width(height),
{
    lemma_chunk_sizes(height);
    arith::lemma_parts_needed(height * 128, 48);
}

/// No chunk is to spare: every chunk but the last is as wide as can be and ends before the line
/// does.
pub proof fn law_no_chunk_to_spare(width: u32, height: u32, k: int)
    requires
        width > 0,
        height > 0,
        0 <= k < chunk_count(width, height) - 1,
    ensures
        chunk_right(k, width, height) < width,
        chunk_right(k, width, height) - chunk_left(k, height) == chunk_width(height),
        chunk_left(k + 1, height) == chunk_right(k, width, height) - chunk_overlap(height),
{
    lemma_chunk_sizes(height);
    lemma_chunk_ends(width, height, k);
    law_chunks_cover_line(width, height, k + 1);
}

/// Every column of a line is in one of its chunks.
pub proof fn law_every_column_is_in_a_chunk(width: u32, height: u32, x: int) -> (k: int)
    requires
        height > 0,
        0 <= x < width,
    ensures
        0 <= k < chunk_count(width, height),
        chunk_left(k, height) <= x < chunk_right(k, width, height),
{
    lemma_chunk_sizes(height);
    lemma_mul_basics_1(chunk_step(height));
    if width > chunk_width(height) {
        arith::lemma_parts_needed(width - chunk_width(height), chunk_step(height));
        assert(chunk_count(width, height) >= 1) by {
            lemma_div_pos_is_pos(
                width - chunk_width(height) + chunk_step(height) - 1,
                chunk_step(height),
            );
        }
    }
    law_chunks_cover_line(width, height, 0);
    lemma_column_in_chunk(width, height, x, chunk_count(width, height) - 1)
}

proof fn lemma_column_in_chunk(width: u32, height: u32, x: int, last: int) -> (k: int)
    requires
        width > 0,
        height > 0,
        0 <= last < chunk_count(width, height),
        0 <= x < chunk_right(last, width, height),
    ensures
        0 <= k < chunk_count(width, height),
        chunk_left(k, height) <= x < chunk_right(k, width, height),
    decreases last,
{
    law_chunks_cover_line(width, height, last);
    if chunk_left(last, height) <= x {
        last
    } else {
        lemma_chunk_sizes(height);
        lemma_column_in_chunk(width, height, x, last - 1)
    }
}

/// A chunk shows the line as it is: its pixels are those of the line, as many columns further to the
/// right as the chunk's first column is.
pub proof fn law_chunk_keeps_pixels(
    part: image::DynamicImage,
    image: image::DynamicImage,
    k: int,
    x: int,
    y: int,
    channel: int,
)
    requires
        picture::image_size(image).1 > 0,
        0 <= k < chunk_count(picture::image_size(image).0, picture::image_size(image).1),
        is_chunk(part, image, k),
        0 <= x < picture::image_size(part).0,
        0 <= y < picture::image_size(part).1,
        0 <= channel < 3,
    ensures
        ({
            let (width, height) = picture::image_size(image);
            let columns = picture::image_size(part).0;
            &&& picture::image_size(part).1 == height
            &&& picture::rgb_bytes(part)[(y * columns + x) * 3 + channel] == picture::rgb_bytes(
                image,
            )[(y * width + chunk_left(k, height) + x) * 3 + channel]
        }),
{
    let (width, height) = picture::image_size(image);
    if width == 0 {
        lemma_chunk_sizes(height);
        lemma_mul_basics_1(chunk_step(height));
        assert(k == 0);
    } else {
        law_chunks_cover_line(width, height, k);
    }
    let columns = chunk_right(k, width, height) - chunk_left(k, height);
    assert(columns == picture::image_size(part).0) by {
        if width > 0 {
            lemma_chunk_sizes(height);
        }
    }
    picture::law_cut_keeps_pixels(
        picture::rgb_bytes(image),
        width as int,
        chunk_left(k, height),
        0,
        columns,
        height as int,
        x,
        y,
        channel,
    );
}

/// An image has pixels exactly if it has a column and a row; one without is told of as an image that
/// cannot be used.
pub proof fn law_image_without_pixels(image: image::DynamicImage, error: OcrError)
    ensures
        has_pixels(image) <==> 0 < picture::image_size(image).0 && 0 < picture::image_size(image).1,
        is_dimension_error(error) ==> error is Image,
{
}

/// The image of a line of one box is that box, straightened. A line of more boxes is cut to its
/// rectangle and the room to its right; it is refused exactly if that holds no column or no row.
pub proof fn law_line_is_cut_to_its_rectangle(
    image: image::DynamicImage,
    boxes: Seq<TextBox>,
    line: Result<LineCrop, OcrError>,
)
    requires
        is_line_crop(image, boxes, line),
    ensures
        boxes.len() == 1 ==> line == Ok::<LineCrop, OcrError>(LineCrop::Straightened(boxes[0])),
        boxes.len() != 1 ==> {
            let bounds = hull(boxes);
            let right = padded_right(bounds, picture::image_size(image).0);
            &&& line is Err <==> right <= bounds.left || bounds.bottom <= bounds.top
            &&& line is Ok && bounds.bottom <= picture::image_size(image).1 ==> {
                &&& line->Ok_0 is Cut
                &&& picture::image_size(line->Ok_0->Cut_0).0 == right - bounds.left
                &&& picture::image_size(line->Ok_0->Cut_0).1 == bounds.bottom - bounds.top
            }
        },
{
}

/// The errors for images and outputs that cannot be used name the numbers that are at fault.
pub proof fn law_errors_name_their_numbers(count: nat, length: nat, classes: nat)
    ensures
        too_wide_text(count as int) == "recognition input width "@ + text::decimal(count)
            + " exceeds maximum 8192"@,
        too_many_chunks_text(count as int) == "text line requires "@ + text::decimal(count)
            + " recognition chunks; maximum is 64"@,
        not_divisible_text(length, classes) == ("model output length "@ + text::decimal(length)) + (
        " is not divisible by class count "@ + text::decimal(classes)),
        text::decimal(count).is_suffix_of(invalid_class_text(count)),
{
    reveal_with_fuel(text::decimal, 5);
    reveal_strlit(" exceeds maximum 8192");
    reveal_strlit(" exceeds maximum ");
    reveal_strlit(" recognition chunks; maximum is 64");
    reveal_strlit(" recognition chunks; maximum is ");
    assert(text::decimal(8192) =~= seq!['8', '1', '9', '2']);
    assert(text::decimal(64) =~= seq!['6', '4']);
    assert(" exceeds maximum "@ + text::decimal(8192) =~= " exceeds maximum 8192"@);
    assert(" recognition chunks; maximum is "@ + text::decimal(64)
        =~= " recognition chunks; maximum is 64"@);
    let whole = invalid_class_text(count);
    let digits = text::decimal(count);
    assert(whole.subrange(whole.len() - digits.len(), whole.len() as int) == digits);
    assert(too_wide_text(count as int) =~= "recognition input width "@ + digits + (
    " exceeds maximum "@ + text::decimal(8192)));
    assert(too_many_chunks_text(count as int) =~= "text line requires "@ + digits + (
    " recognition chunks; maximum is "@ + text::decimal(64)));
    assert(not_divisible_text(length, classes) =~= ("model output length "@ + text::decimal(length))
        + (" is not divisible by class count "@ + text::decimal(classes)));
}

/// A prepared line holds what came of scaling its image to 48 rows, and as many columns as keep its
/// proportions; an image that has this size already is held as it is.
pub proof fn law_prepared_line_was_scaled(input: RecognitionInput, image: image::DynamicImage) -> (
    resized: image::DynamicImage)
    requires
        is_prepared(input, image),
    ensures
        ({
            let (width, height) = picture::image_size(image);
            let columns = scaled_width(width, height);
            &&& picture::scales_to(image, columns as u32, 48, resized)
            &&& is_input(input, image, picture::rgb_bytes(resized))
            &&& picture::rgb_bytes(resized).len() == columns * 48 * 3
            &&& width == columns && height == 48 ==> picture::rgb_bytes(resized)
                == picture::rgb_bytes(image)
        }),
{
    choose|resized: image::DynamicImage| #[trigger]
        picture::scales_to(
            image,
            image_scaled_width(image) as u32,
            INPUT_HEIGHT,
            resized,
        ) && is_input(input, image, picture::rgb_bytes(resized))
}

} // verus!
