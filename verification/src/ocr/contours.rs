//! From the scores of the detection network to the corners of boxes.
use crate::ocr::detection::Corner;
use crate::order;
use vstd::arithmetic::div_mod::*;
use vstd::arithmetic::power2::*;
use vstd::prelude::*;

verus! {

/// The greatest number of borders that are looked at.
pub const MAX_CANDIDATES: usize = 3000;

/// The bits of the greatest coordinate that is accepted, one million.
pub const COORDINATE_LIMIT_BITS: u32 = 0x4974_2400;

/// The bits of the score that a pixel has to exceed to be taken for text, one fifth.
pub const THRESHOLD_BITS: u32 = 0x3e4c_cccd;

/// The bits of positive infinity.
pub const INFINITY_BITS: u32 = 0x7f80_0000;

/// The bits of the least score that a box has to have, 0.45.
pub const BOX_THRESHOLD_BITS: u32 = 0x3ee6_6666;

/// A place in an image, in whole pixels.
#[derive(Debug, Clone, Copy, PartialEq, Eq, Structural)]
pub struct Pixel {
    /// Column.
    pub x: i32,
    /// Row.
    pub y: i32,
}

/// A border of a region.
#[derive(Debug)]
pub struct Border {
    /// The pixels along it, in order.
    pub points: Vec<Pixel>,
    /// Whether it is the border of a hole.
    pub hole: bool,
}

/// Whether the number with these bits is over the threshold for text.
pub open spec fn over_threshold(bits: u32) -> bool {
    THRESHOLD_BITS < bits <= INFINITY_BITS
}

/// Which pixels are text: 255 where the score is over the threshold, else 0.
pub open spec fn text_pixels(scores: Seq<u32>) -> Seq<u8> {
    scores.map_values(
        |bits: u32|
            if over_threshold(bits) {
                255u8
            } else {
                0u8
            },
    )
}

/// Marks the pixels whose score is over the threshold.
pub fn bitmap(scores: &[u32]) -> (pixels: Vec<u8>)
    ensures
        pixels@ == text_pixels(scores@),
{
    let mut pixels: Vec<u8> = Vec::new();
    for i in 0..scores.len()
        invariant
            pixels@ == text_pixels(scores@).take(i as int),
    {
        let bits: u32 = scores[i];
        if THRESHOLD_BITS < bits && bits <= INFINITY_BITS {
            pixels.push(255);
        } else {
            pixels.push(0);
        }
        assert(pixels@ =~= text_pixels(scores@).take(i + 1));
    }
    assert(pixels@ =~= text_pixels(scores@));
    pixels
}

/// The pair of a pixel's coordinates.
pub open spec fn pair(pixel: Pixel) -> (i32, i32) {
    (pixel.x, pixel.y)
}

/// The pairs of some pixels' coordinates.
pub open spec fn pairs(pixels: Seq<Pixel>) -> Seq<(i32, i32)> {
    pixels.map_values(|pixel: Pixel| pair(pixel))
}

/// Borders by their pixels, and whether they are borders of holes.
pub open spec fn borders_view(borders: Seq<Border>) -> Seq<(Seq<(i32, i32)>, bool)> {
    borders.map_values(|border: Border| (pairs(border.points@), border.hole))
}

/// The borders of the regions of pixels that are not zero, in the order they are found in.
pub uninterp spec fn borders_of(pixels: Seq<u8>, width: u32, height: u32) -> Seq<
    (Seq<(i32, i32)>, bool),
>;

/// `find_contours` of the `imageproc` crate follows the borders of the regions of pixels that are
/// not zero; it tells outer borders and borders of holes apart, and all pixels along a border lie
/// in the image.
#[verifier::external_body]
fn find_contours(pixels: Vec<u8>, width: u32, height: u32) -> (borders: Vec<Border>)
    requires
        pixels@.len() == width * height,
        width * height < 0x7fff_ffff,
        width < 0x7fff_ffff,
        height < 0x7fff_ffff,
    ensures
        borders_view(borders@) == borders_of(pixels@, width, height),
        forall|i: int, k: int|
            0 <= i < borders@.len() && 0 <= k < borders@[i].points@.len() ==> {
                &&& 0 <= (#[trigger] borders@[i].points@[k]).x < width
                &&& 0 <= borders@[i].points@[k].y < height
            },
{
    let image = image::GrayImage::from_raw(width, height, pixels).expect("one byte per pixel");
    imageproc::contours::find_contours::<i32>(&image)
        .into_iter()
        .map(|contour| Border {
            hole: contour.border_type == imageproc::contours::BorderType::Hole,
            points: contour.points.into_iter().map(|p| Pixel { x: p.x, y: p.y }).collect(),
        })
        .collect()
}

/// Whether a border can be that of a piece of text: an outer one with at least three pixels.
pub open spec fn is_candidate(border: (Seq<(i32, i32)>, bool)) -> bool {
    !border.1 && border.0.len() >= 3
}

/// The candidates among some borders.
pub open spec fn candidates_of(borders: Seq<(Seq<(i32, i32)>, bool)>) -> Seq<Seq<(i32, i32)>>
    decreases borders.len(),
{
    if borders.len() == 0 {
        Seq::empty()
    } else {
        let before = candidates_of(borders.drop_last());
        if is_candidate(borders.last()) {
            before.push(borders.last().0)
        } else {
            before
        }
    }
}

/// The first borders, as many as are looked at.
pub open spec fn first_borders(borders: Seq<(Seq<(i32, i32)>, bool)>) -> Seq<
    (Seq<(i32, i32)>, bool),
> {
    if borders.len() <= MAX_CANDIDATES {
        borders
    } else {
        borders.take(MAX_CANDIDATES as int)
    }
}

/// The contents of a list of pixel lists.
pub open spec fn pixel_lists(lists: Seq<Vec<Pixel>>) -> Seq<Seq<(i32, i32)>> {
    lists.map_values(|list: Vec<Pixel>| pairs(list@))
}

/// Picks the candidates among the first borders.
pub fn candidates_among(borders: Vec<Border>) -> (candidates: Vec<Vec<Pixel>>)
    ensures
        pixel_lists(candidates@) == candidates_of(first_borders(borders_view(borders@))),
{
    let mut candidates: Vec<Vec<Pixel>> = Vec::new();
    let ghost whole = borders_view(borders@);
    let ghost first = first_borders(whole);
    let mut seen: usize = 0;
    assert(first.take(0) == Seq::<(Seq<(i32, i32)>, bool)>::empty());
    for border in rest: borders
        invariant
            rest.seq() == borders@,
            whole == borders_view(borders@),
            first == first_borders(whole),
            seen <= rest.index(),
            rest.index() <= MAX_CANDIDATES ==> seen == rest.index(),
            rest.index() > MAX_CANDIDATES ==> seen == MAX_CANDIDATES,
            pixel_lists(candidates@) == candidates_of(first.take(seen as int)),
    {
        if seen < MAX_CANDIDATES {
            assert(whole[seen as int] == (pairs(border.points@), border.hole));
            assert(first.take(seen + 1).drop_last() == first.take(seen as int));
            assert(first.take(seen + 1).last() == whole[seen as int]);
            let ghost before = candidates@;
            let ghost added = border.points@;
            if !border.hole && border.points.len() >= 3 {
                candidates.push(border.points);
                assert(pixel_lists(candidates@) =~= pixel_lists(before).push(pairs(added)));
            }
            seen += 1;
        }
    }
    assert(first.take(seen as int) == first);
    candidates
}

/// Whether all of some places lie in a `width` by `height` image.
pub open spec fn in_image(places: Seq<(i32, i32)>, width: u32, height: u32) -> bool {
    forall|k: int|
        0 <= k < places.len() ==> 0 <= (#[trigger] places[k]).0 < width && 0 <= places[k].1
            < height
}

/// Where all borders lie in the image, so do the candidates among them.
proof fn lemma_candidates_in_image(
    borders: Seq<(Seq<(i32, i32)>, bool)>,
    width: u32,
    height: u32,
)
    requires
        forall|i: int|
            0 <= i < borders.len() ==> in_image((#[trigger] borders[i]).0, width, height),
    ensures
        forall|i: int|
            0 <= i < candidates_of(borders).len() ==> in_image(
                #[trigger] candidates_of(borders)[i],
                width,
                height,
            ),
    decreases borders.len(),
{
    if borders.len() > 0 {
        let fewer = borders.drop_last();
        assert forall|i: int| 0 <= i < fewer.len() implies in_image(
            (#[trigger] fewer[i]).0,
            width,
            height,
        ) by {
            assert(fewer[i] == borders[i]);
        }
        lemma_candidates_in_image(fewer, width, height);
        assert(borders[borders.len() - 1] == borders.last());
        let before = candidates_of(fewer);
        let after = candidates_of(borders);
        assert forall|i: int| 0 <= i < after.len() implies in_image(
            #[trigger] after[i],
            width,
            height,
        ) by {
            if i < before.len() {
                assert(after[i] == before[i]);
            }
        }
    }
}

/// Finds the borders that can be those of pieces of text in the scores of a `width` by `height`
/// image. All their pixels lie in the image.
pub fn candidate_borders(scores: &[u32], width: u32, height: u32) -> (candidates: Vec<Vec<Pixel>>)
    requires
        scores@.len() == width * height,
        width * height < 0x7fff_ffff,
        width < 0x7fff_ffff,
        height < 0x7fff_ffff,
    ensures
        pixel_lists(candidates@) == candidates_of(
            first_borders(borders_of(text_pixels(scores@), width, height)),
        ),
        forall|i: int|
            0 <= i < candidates@.len() ==> in_image(
                pairs((#[trigger] candidates@[i])@),
                width,
                height,
            ),
{
    let borders = find_contours(bitmap(scores), width, height);
    let ghost first = first_borders(borders_view(borders@));
    proof {
        assert forall|i: int| 0 <= i < first.len() implies in_image(
            (#[trigger] first[i]).0,
            width,
            height,
        ) by {
            assert(first[i].0 == pairs(borders@[i].points@));
            assert forall|k: int| 0 <= k < first[i].0.len() implies 0 <= (
            #[trigger] first[i].0[k]).0 < width && 0 <= first[i].0[k].1 < height by {
                assert(first[i].0[k] == pair(borders@[i].points@[k]));
            }
        }
        lemma_candidates_in_image(first, width, height);
    }
    let candidates = candidates_among(borders);
    proof {
        assert forall|i: int| 0 <= i < candidates@.len() implies in_image(
            pairs((#[trigger] candidates@[i])@),
            width,
            height,
        ) by {
            assert(pixel_lists(candidates@)[i] == pairs(candidates@[i]@));
            assert(in_image(candidates_of(first)[i], width, height));
        }
    }
    candidates
}

/// The magnitude's bits of a single-precision number.
pub open spec fn magnitude_bits(bits: u32) -> int {
    bits as int % 0x8000_0000
}

/// The significand of a single-precision number as a whole number.
pub open spec fn significand(bits: u32) -> int {
    if magnitude_bits(bits) < 0x80_0000 {
        magnitude_bits(bits)
    } else {
        0x80_0000 + magnitude_bits(bits) % 0x80_0000
    }
}

/// How many halvings lie between the significand of a number and the number, where it is below
/// the coordinate limit.
pub open spec fn halvings(bits: u32) -> int {
    if magnitude_bits(bits) < 0x80_0000 {
        149
    } else {
        150 - magnitude_bits(bits) / 0x80_0000
    }
}

/// Whether a coordinate is accepted: a number, and not over the limit either way.
pub open spec fn is_coordinate(bits: u32) -> bool {
    magnitude_bits(bits) <= COORDINATE_LIMIT_BITS
}

/// The whole number nearest to a coordinate, halves away from zero.
pub open spec fn nearest(bits: u32) -> int {
    let unit = pow2(halvings(bits) as nat) as int;
    let magnitude = (2 * significand(bits) + unit) / (2 * unit);
    if bits >= 0x8000_0000 {
        -magnitude
    } else {
        magnitude
    }
}

/// Two to the power of `exponent`.
fn power_of_two(exponent: u32) -> (power: u64)
    requires
        exponent <= 60,
    ensures
        power == pow2(exponent as nat),
        power <= 0x1000_0000_0000_0000,
{
    let mut power: u64 = 1;
    proof {
        lemma2_to64();
        lemma2_to64_rest();
    }
    for i in 0..exponent
        invariant
            exponent <= 60,
            power == pow2(i as nat),
            power <= 0x1000_0000_0000_0000,
            pow2(60) == 0x1000_0000_0000_0000,
    {
        proof {
            lemma_pow2_unfold((i + 1) as nat);
            if i + 1 < 60 {
                lemma_pow2_strictly_increases((i + 1) as nat, 60);
            }
        }
        power = power * 2;
    }
    power
}

/// Rounds an accepted coordinate to a whole number, halves away from zero.
pub fn round_coordinate(bits: u32) -> (rounded: Option<i32>)
    ensures
        rounded is Some <==> is_coordinate(bits),
        rounded matches Some(value) ==> value == nearest(bits) && -0x100_0000 <= value
            <= 0x100_0000,
{
    let magnitude: u32 = bits % 0x8000_0000;
    if magnitude > COORDINATE_LIMIT_BITS {
        return None;
    }
    let whole: u64 = if magnitude < 0x80_0000 {
        magnitude as u64
    } else {
        0x80_0000 + (magnitude % 0x80_0000) as u64
    };
    let steps: u32 = if magnitude < 0x80_0000 {
        149
    } else {
        150 - magnitude / 0x80_0000
    };
    assert(whole == significand(bits) && steps == halvings(bits));
    assert(whole < 0x100_0000);
    assert(4 <= steps <= 149);
    let ghost unit = pow2(steps as nat) as int;
    let value: i32 = if steps > 60 {
        proof {
            lemma2_to64();
            lemma2_to64_rest();
            lemma_pow2_strictly_increases(60, steps as nat);
            lemma_basic_div(2 * whole as int + unit, 2 * unit);
        }
        0
    } else {
        let power: u64 = power_of_two(steps);
        proof {
            lemma_pow2_pos(steps as nat);
            lemma2_to64();
            lemma_fundamental_div_mod(2 * whole as int + unit, 2 * unit);
            let q = (2 * whole as int + unit) / (2 * unit);
            let r = (2 * whole as int + unit) % (2 * unit);
            assert(0 <= q <= whole + 1) by (nonlinear_arith)
                requires
                    2 * whole as int + unit == 2 * unit * q + r,
                    0 <= r < 2 * unit,
                    unit >= 1,
                    whole >= 0,
            ;
        }
        ((2 * whole + power) / (2 * power)) as i32
    };
    if bits >= 0x8000_0000 {
        Some(-value)
    } else {
        Some(value)
    }
}

/// The pixel that a corner rounds to.
pub open spec fn nearest_pixel(corner: Corner) -> Pixel {
    Pixel { x: nearest(corner.x) as i32, y: nearest(corner.y) as i32 }
}

/// Whether both coordinates of a corner are accepted.
pub open spec fn is_place(corner: Corner) -> bool {
    is_coordinate(corner.x) && is_coordinate(corner.y)
}

/// Whether both coordinates of all corners are accepted.
pub open spec fn all_places(corners: Seq<Corner>) -> bool {
    forall|i: int| 0 <= i < corners.len() ==> is_place(#[trigger] corners[i])
}

/// The pixels that corners round to.
pub open spec fn nearest_pixels(corners: Seq<Corner>) -> Seq<Pixel> {
    corners.map_values(|corner: Corner| nearest_pixel(corner))
}

/// Rounds corners to pixels, unless a coordinate is not accepted.
pub fn round_corners(corners: &Vec<Corner>) -> (pixels: Option<Vec<Pixel>>)
    ensures
        pixels is Some <==> all_places(corners@),
        pixels matches Some(list) ==> list@ == nearest_pixels(corners@) && forall|i: int|
            0 <= i < list@.len() ==> {
                &&& -0x100_0000 <= (#[trigger] list@[i]).x <= 0x100_0000
                &&& -0x100_0000 <= list@[i].y <= 0x100_0000
            },
{
    let mut list: Vec<Pixel> = Vec::new();
    for i in 0..corners.len()
        invariant
            forall|j: int| 0 <= j < i ==> is_place(#[trigger] corners@[j]),
            list@ == nearest_pixels(corners@).take(i as int),
            forall|j: int|
                0 <= j < list@.len() ==> {
                    &&& -0x100_0000 <= (#[trigger] list@[j]).x <= 0x100_0000
                    &&& -0x100_0000 <= list@[j].y <= 0x100_0000
                },
    {
        let corner = corners[i];
        match (round_coordinate(corner.x), round_coordinate(corner.y)) {
            (Some(x), Some(y)) => {
                list.push(Pixel { x, y });
                assert(list@ =~= nearest_pixels(corners@).take(i + 1));
            },
            _ => {
                assert(!is_place(corners@[i as int]));
                return None;
            },
        }
    }
    assert(list@ =~= nearest_pixels(corners@));
    Some(list)
}

/// The place of a pixel in the order by column, then by row.
pub open spec fn pixel_key(pixel: Pixel) -> u64 {
    ((pixel.x + 0x8000_0000) * 0x1_0000_0000 + (pixel.y + 0x8000_0000)) as u64
}

/// Whether pixels ascend by column, then by row, without repeats.
pub open spec fn ascending(pixels: Seq<Pixel>) -> bool {
    forall|i: int, j: int|
        0 <= i < j < pixels.len() ==> pixel_key(#[trigger] pixels[i]) < pixel_key(
            #[trigger] pixels[j],
        )
}

/// Whether two lists hold the same pixels, however often and in whatever order.
pub open spec fn same_pixels(left: Seq<Pixel>, right: Seq<Pixel>) -> bool {
    forall|pixel: Pixel| #[trigger] left.contains(pixel) == right.contains(pixel)
}

/// The place of a pixel in the order by column, then by row.
fn key_of(pixel: Pixel) -> (key: u64)
    ensures
        key == pixel_key(pixel),
        key == (pixel.x + 0x8000_0000) * 0x1_0000_0000 + (pixel.y + 0x8000_0000),
{
    let x: u64 = (pixel.x as i64 + 0x8000_0000) as u64;
    let y: u64 = (pixel.y as i64 + 0x8000_0000) as u64;
    x * 0x1_0000_0000 + y
}

/// Sorts pixels by column, then by row, and leaves repeats away.
pub fn distinct_pixels(pixels: &Vec<Pixel>) -> (distinct: Vec<Pixel>)
    ensures
        ascending(distinct@),
        same_pixels(distinct@, pixels@),
{
    let mut keys: Vec<u64> = Vec::new();
    for i in 0..pixels.len()
        invariant
            keys@.len() == i,
            forall|j: int| 0 <= j < i ==> #[trigger] keys@[j] == pixel_key(pixels@[j]),
    {
        keys.push(key_of(pixels[i]));
    }
    let order = order::sort_order(&keys);
    let ghost places = order::positions(order@);
    let mut distinct: Vec<Pixel> = Vec::new();
    for k in 0..order.len()
        invariant
            keys@.len() == pixels@.len(),
            forall|j: int|
                0 <= j < keys@.len() ==> #[trigger] keys@[j] == pixel_key(pixels@[j]),
            places == order::positions(order@),
            order::is_stable_order(places, keys@, keys@.len() as int),
            ascending(distinct@),
            forall|j: int| 0 <= j < k ==> distinct@.contains(pixels@[#[trigger] places[j]]),
            forall|m: int|
                0 <= m < distinct@.len() ==> pixels@.contains(#[trigger] distinct@[m]),
            k > 0 ==> distinct@.len() > 0 && distinct@.last() == pixels@[places[k - 1]],
            k == 0 ==> distinct@.len() == 0,
    {
        assert(places[k as int] == order@[k as int]);
        let pixel = pixels[order[k]];
        assert(keys@[places[k as int]] == pixel_key(pixel));
        let ghost before = distinct@;
        let repeated = distinct.len() > 0 && distinct[distinct.len() - 1] == pixel;
        if !repeated {
            proof {
                if k > 0 {
                    let last = pixels@[places[k - 1]];
                    assert(order::precedes(keys@, places[k - 1], places[k as int]));
                    assert(keys@[places[k - 1]] == pixel_key(last));
                    lemma_keys_tell_pixels(last, pixel);
                    assert(before[before.len() - 1] == last);
                }
            }
            distinct.push(pixel);
            proof {
                let after = distinct@;
                assert forall|i: int, j: int| 0 <= i < j < after.len() implies pixel_key(
                    #[trigger] after[i],
                ) < pixel_key(#[trigger] after[j]) by {
                    assert(after[i] == before[i]);
                    if j < before.len() {
                        assert(after[j] == before[j]);
                    } else if i < before.len() - 1 {
                        assert(pixel_key(before[i]) < pixel_key(before[before.len() - 1]));
                    }
                }
                assert forall|j: int| 0 <= j < k + 1 implies after.contains(
                    pixels@[#[trigger] places[j]],
                ) by {
                    if j < k {
                        assert(before.contains(pixels@[places[j]]));
                        let m = choose|m: int|
                            0 <= m < before.len() && before[m] == pixels@[places[j]];
                        assert(after[m] == before[m]);
                    } else {
                        assert(after[before.len() as int] == pixel);
                    }
                }
                assert forall|m: int| 0 <= m < after.len() implies pixels@.contains(
                    #[trigger] after[m],
                ) by {
                    if m < before.len() {
                        assert(after[m] == before[m]);
                    } else {
                        assert(pixels@[places[k as int]] == pixel);
                    }
                }
            }
        } else {
            assert(distinct@[distinct@.len() - 1] == pixel);
        }
    }
    proof {
        assert forall|pixel: Pixel| #[trigger] distinct@.contains(pixel) == pixels@.contains(
            pixel,
        ) by {
            if pixels@.contains(pixel) {
                let i = choose|i: int| 0 <= i < pixels@.len() && pixels@[i] == pixel;
                assert(places.contains(i));
                let j = choose|j: int| 0 <= j < places.len() && places[j] == i;
                assert(distinct@.contains(pixels@[places[j]]));
            }
            if distinct@.contains(pixel) {
                let m = choose|m: int| 0 <= m < distinct@.len() && distinct@[m] == pixel;
                assert(pixels@.contains(distinct@[m]));
            }
        }
    }
    distinct
}

/// Pixels with the same place in the order are equal.
proof fn lemma_keys_tell_pixels(left: Pixel, right: Pixel)
    ensures
        pixel_key(left) == pixel_key(right) ==> left == right,
{
}

/// Lists that ascend and hold the same pixels are equal.
pub proof fn law_distinct_is_determined(left: Seq<Pixel>, right: Seq<Pixel>)
    requires
        ascending(left),
        ascending(right),
        same_pixels(left, right),
    ensures
        left == right,
    decreases left.len(),
{
    if left.len() == 0 {
        if right.len() > 0 {
            assert(right.contains(right[0]));
            assert(left.contains(right[0]));
        }
        assert(left == right);
    } else {
        assert(left.contains(left[0]));
        assert(right.len() > 0);
        let a = left.last();
        let b = right.last();
        assert(left[left.len() - 1] == a && right[right.len() - 1] == b);
        assert(left.contains(a) && right.contains(b));
        assert(left.contains(b));
        let i = choose|i: int| 0 <= i < right.len() && right[i] == a;
        let j = choose|j: int| 0 <= j < left.len() && left[j] == b;
        assert(a == b) by {
            if i < right.len() - 1 && j < left.len() - 1 {
                assert(pixel_key(right[i]) < pixel_key(right[right.len() - 1]));
                assert(pixel_key(left[j]) < pixel_key(left[left.len() - 1]));
            }
        }
        let c = left.drop_last();
        let d = right.drop_last();
        assert forall|pixel: Pixel| #[trigger] c.contains(pixel) == d.contains(pixel) by {
            lemma_without_last(left, pixel);
            lemma_without_last(right, pixel);
            assert(left.contains(pixel) == right.contains(pixel));
        }
        law_distinct_is_determined(c, d);
        assert(left == c.push(a));
        assert(right == d.push(b));
    }
}

proof fn lemma_without_last(pixels: Seq<Pixel>, pixel: Pixel)
    requires
        ascending(pixels),
        pixels.len() > 0,
    ensures
        pixels.drop_last().contains(pixel) == (pixels.contains(pixel) && pixel != pixels.last()),
{
    let fewer = pixels.drop_last();
    if fewer.contains(pixel) {
        let i = choose|i: int| 0 <= i < fewer.len() && fewer[i] == pixel;
        assert(pixels[i] == pixel);
        assert(pixel_key(pixels[i]) < pixel_key(pixels[pixels.len() - 1]));
    }
    if pixels.contains(pixel) && pixel != pixels.last() {
        let i = choose|i: int| 0 <= i < pixels.len() && pixels[i] == pixel;
        assert(fewer[i] == pixel);
    }
}

/// Whether some pixels lie in an upright rectangle.
pub open spec fn lie_between(
    pixels: Seq<Pixel>,
    left: int,
    right: int,
    top: int,
    bottom: int,
) -> bool {
    forall|i: int|
        0 <= i < pixels.len() ==> left <= (#[trigger] pixels[i]).x <= right && top <= pixels[i].y
            <= bottom
}

/// Whether twice the area of an upright rectangle fits the arithmetic of the rectangle search.
pub open spec fn is_small(left: int, right: int, top: int, bottom: int) -> bool {
    2 * ((right - left) * (bottom - top)) <= i32::MAX
}

/// Whether some pixels lie close enough together for the arithmetic of the rectangle search.
pub open spec fn is_compact(pixels: Seq<Pixel>) -> bool {
    exists|left: int, right: int, top: int, bottom: int| #[trigger]
        lie_between(pixels, left, right, top, bottom) && is_small(left, right, top, bottom)
}

/// Whether some pixels lie close enough together for the arithmetic of the rectangle search.
pub fn compact(pixels: &Vec<Pixel>) -> (found: bool)
    ensures
        found == is_compact(pixels@),
{
    if pixels.len() == 0 {
        proof {
            assert(lie_between(pixels@, 0, 0, 0, 0));
            assert(is_small(0, 0, 0, 0));
        }
        return true;
    }
    let (mut left, mut right, mut top, mut bottom) = (
        pixels[0].x,
        pixels[0].x,
        pixels[0].y,
        pixels[0].y,
    );
    let mut ends: Ghost<(int, int, int, int)> = Ghost((0, 0, 0, 0));
    for i in 1..pixels.len()
        invariant
            pixels@.len() > 0,
            1 <= i,
            forall|j: int|
                0 <= j < i ==> left <= (#[trigger] pixels@[j]).x <= right && top <= pixels@[j].y
                    <= bottom,
            0 <= ends@.0 < i && pixels@[ends@.0].x == left,
            0 <= ends@.1 < i && pixels@[ends@.1].x == right,
            0 <= ends@.2 < i && pixels@[ends@.2].y == top,
            0 <= ends@.3 < i && pixels@[ends@.3].y == bottom,
    {
        let pixel = pixels[i];
        if pixel.x < left {
            left = pixel.x;
            proof {
                ends@ = (i as int, ends@.1, ends@.2, ends@.3);
            }
        }
        if pixel.x > right {
            right = pixel.x;
            proof {
                ends@ = (ends@.0, i as int, ends@.2, ends@.3);
            }
        }
        if pixel.y < top {
            top = pixel.y;
            proof {
                ends@ = (ends@.0, ends@.1, i as int, ends@.3);
            }
        }
        if pixel.y > bottom {
            bottom = pixel.y;
            proof {
                ends@ = (ends@.0, ends@.1, ends@.2, i as int);
            }
        }
    }
    assert(lie_between(pixels@, left as int, right as int, top as int, bottom as int));
    let width: i128 = right as i128 - left as i128;
    let height: i128 = bottom as i128 - top as i128;
    assert(0 <= width * height <= 0x1_0000_0000 * 0x1_0000_0000) by (nonlinear_arith)
        requires
            0 <= width <= 0x1_0000_0000,
            0 <= height <= 0x1_0000_0000,
    ;
    let small = 2 * (width * height) <= 0x7fff_ffff;
    proof {
        assert(small == is_small(left as int, right as int, top as int, bottom as int));
        if !small && is_compact(pixels@) {
            let (l, r, t, b) = choose|l: int, r: int, t: int, b: int| #[trigger]
                lie_between(pixels@, l, r, t, b) && is_small(l, r, t, b);
            assert(l <= pixels@[ends@.0].x && pixels@[ends@.1].x <= r);
            assert(t <= pixels@[ends@.2].y && pixels@[ends@.3].y <= b);
            assert((r - l) * (b - t) >= width * height) by (nonlinear_arith)
                requires
                    r - l >= width >= 0,
                    b - t >= height >= 0,
            ;
        }
    }
    small
}

/// Whether some pixels span a box: at least three of them are different.
pub open spec fn spans_box(pixels: Seq<Pixel>) -> bool {
    exists|i: int, j: int, k: int|
        0 <= i < pixels.len() && 0 <= j < pixels.len() && 0 <= k < pixels.len() && (
        #[trigger] pixels[i]) != (#[trigger] pixels[j]) && pixels[j] != (#[trigger] pixels[k])
            && pixels[i] != pixels[k]
}

/// The greatest coordinate, either way, of pixels that the rectangle search is given.
pub const REACH: i32 = 0x100_0000;

/// Whether no coordinate of some pixels is further from zero than `limit`.
pub open spec fn stays_within(pixels: Seq<Pixel>, limit: int) -> bool {
    forall|i: int|
        0 <= i < pixels.len() ==> -limit <= (#[trigger] pixels[i]).x <= limit && -limit
            <= pixels[i].y <= limit
}

/// Whether the rectangle search has room for some pixels, if they span a box at all.
pub open spec fn is_searchable(pixels: Seq<Pixel>) -> bool {
    spans_box(pixels) ==> stays_within(pixels, REACH as int) && is_compact(pixels)
}

/// Whether no coordinate of some pixels is further from zero than `limit`.
pub fn within(pixels: &Vec<Pixel>, limit: i32) -> (found: bool)
    requires
        limit >= 0,
    ensures
        found == stays_within(pixels@, limit as int),
{
    for i in 0..pixels.len()
        invariant
            limit >= 0,
            forall|j: int|
                0 <= j < i ==> -limit <= (#[trigger] pixels@[j]).x <= limit && -limit
                    <= pixels@[j].y <= limit,
    {
        let pixel = pixels[i];
        if pixel.x < -limit || pixel.x > limit || pixel.y < -limit || pixel.y > limit {
            assert(!(-limit <= pixels@[i as int].x <= limit && -limit <= pixels@[i as int].y
                <= limit));
            return false;
        }
    }
    true
}

/// Whether the rectangle search has room for some pixels, if they span a box at all.
pub fn searchable(pixels: &Vec<Pixel>) -> (found: bool)
    ensures
        found == is_searchable(pixels@),
{
    if within(pixels, REACH) && compact(pixels) {
        return true;
    }
    let distinct = distinct_pixels(pixels);
    proof {
        lemma_three_distinct(distinct@, pixels@);
    }
    distinct.len() < 3
}

/// The number of single steps, along columns and rows, between two pixels.
pub open spec fn steps_between(a: Pixel, b: Pixel) -> int {
    (if a.x < b.x {
        b.x - a.x
    } else {
        a.x - b.x
    }) + (if a.y < b.y {
        b.y - a.y
    } else {
        a.y - b.y
    })
}

/// Whether a place lies on the inner side of the edge from one corner to the next, with a margin
/// for corners that were rounded: the edge goes round clockwise, so that the place lies to the
/// right of it.
pub open spec fn on_inner_side(from: Pixel, to: Pixel, pixel: Pixel) -> bool {
    (to.x - from.x) * (pixel.y - from.y) - (to.y - from.y) * (pixel.x - from.x) + 2 * (
    steps_between(from, to) + steps_between(from, pixel)) + 16 >= 0
}

/// Whether a place lies within the upright rectangle round four corners.
pub open spec fn lies_in_hull(corners: [Pixel; 4], pixel: Pixel) -> bool {
    &&& corners[0].x <= pixel.x || corners[1].x <= pixel.x || corners[2].x <= pixel.x
        || corners[3].x <= pixel.x
    &&& corners[0].x >= pixel.x || corners[1].x >= pixel.x || corners[2].x >= pixel.x
        || corners[3].x >= pixel.x
    &&& corners[0].y <= pixel.y || corners[1].y <= pixel.y || corners[2].y <= pixel.y
        || corners[3].y <= pixel.y
    &&& corners[0].y >= pixel.y || corners[1].y >= pixel.y || corners[2].y >= pixel.y
        || corners[3].y >= pixel.y
}

/// Whether four corners enclose a place: it lies on the inner side of every edge, and within the
/// upright rectangle round the corners.
pub open spec fn encloses(corners: [Pixel; 4], pixel: Pixel) -> bool {
    &&& on_inner_side(corners[0], corners[1], pixel)
    &&& on_inner_side(corners[1], corners[2], pixel)
    &&& on_inner_side(corners[2], corners[3], pixel)
    &&& on_inner_side(corners[3], corners[0], pixel)
    &&& lies_in_hull(corners, pixel)
}

/// Whether four corners enclose all of some places.
pub open spec fn encloses_all(corners: [Pixel; 4], pixels: Seq<Pixel>) -> bool {
    forall|i: int| 0 <= i < pixels.len() ==> encloses(corners, #[trigger] pixels[i])
}

/// The square of the distance between two pixels.
pub open spec fn squared_distance(a: Pixel, b: Pixel) -> int {
    (a.x - b.x) * (a.x - b.x) + (a.y - b.y) * (a.y - b.y)
}

/// Whether all sides of a box are at least `least` long.
pub open spec fn sides_reach(corners: [Pixel; 4], least: int) -> bool {
    &&& squared_distance(corners[0], corners[1]) >= least * least
    &&& squared_distance(corners[1], corners[2]) >= least * least
    &&& squared_distance(corners[2], corners[3]) >= least * least
    &&& squared_distance(corners[0], corners[3]) >= least * least
}

/// Whether the corners of an upright rectangle are among some pixels.
pub open spec fn holds_corners(
    pixels: Seq<Pixel>,
    left: i32,
    right: i32,
    top: i32,
    bottom: i32,
) -> bool {
    &&& pixels.contains(Pixel { x: left, y: top })
    &&& pixels.contains(Pixel { x: right, y: top })
    &&& pixels.contains(Pixel { x: right, y: bottom })
    &&& pixels.contains(Pixel { x: left, y: bottom })
}

/// Whether the corners of an upright rectangle whose sides are at least `side` long are among some
/// pixels.
pub open spec fn spans_upright(pixels: Seq<Pixel>, side: int) -> bool {
    exists|left: i32, right: i32, top: i32, bottom: i32|
        right - left >= side && bottom - top >= side && #[trigger] holds_corners(
            pixels,
            left,
            right,
            top,
            bottom,
        )
}

/// How much shorter than the sides of a rectangle those of its rounded form are at most: rounding
/// moves either end of a side by less than one column and one row.
pub const ROUNDING: u32 = 3;

/// Whether the sides of a box are no shorter, but for rounding, than those of any upright rectangle
/// whose corners are among some pixels.
pub open spec fn sides_cover(corners: [Pixel; 4], pixels: Seq<Pixel>) -> bool {
    forall|side: int|
        side >= ROUNDING && #[trigger] spans_upright(pixels, side) ==> sides_reach(
            corners,
            side - ROUNDING,
        )
}

/// Whether a place lies no further than `margin` columns and rows outside of an upright rectangle.
pub open spec fn lies_near(
    pixel: Pixel,
    left: int,
    right: int,
    top: int,
    bottom: int,
    margin: int,
) -> bool {
    left - margin <= pixel.x <= right + margin && top - margin <= pixel.y <= bottom + margin
}

/// Whether four corners lie near some pixels: no further outside of an upright rectangle round the
/// pixels than its width and height together, and two more for rounding.
pub open spec fn stays_near(corners: [Pixel; 4], pixels: Seq<Pixel>) -> bool {
    forall|left: int, right: int, top: int, bottom: int| #[trigger]
        lie_between(pixels, left, right, top, bottom) ==> {
            let margin = (right - left) + (bottom - top) + 2;
            &&& lies_near(corners[0], left, right, top, bottom, margin)
            &&& lies_near(corners[1], left, right, top, bottom, margin)
            &&& lies_near(corners[2], left, right, top, bottom, margin)
            &&& lies_near(corners[3], left, right, top, bottom, margin)
        }
}

/// Whether corners come in their order: top left, top right, bottom right, bottom left. A box
/// without height has no left and right pair.
pub open spec fn in_corner_order(corners: [Pixel; 4]) -> bool {
    &&& corners[0].y <= corners[3].y
    &&& corners[1].y <= corners[2].y
    &&& corners[0] != corners[3] ==> {
        &&& corners[0].x <= corners[1].x && corners[0].x <= corners[2].x
        &&& corners[3].x <= corners[1].x && corners[3].x <= corners[2].x
    }
}

/// Whether four corners fit round some pixels: they come in order and enclose the pixels, the sides
/// are no shorter than the pixels ask for, and the corners lie near the pixels.
pub open spec fn fits_round(corners: [Pixel; 4], pixels: Seq<Pixel>) -> bool {
    &&& in_corner_order(corners)
    &&& encloses_all(corners, pixels)
    &&& sides_cover(corners, pixels)
    &&& stays_near(corners, pixels)
}

/// Whether the rectangle search, given some pixels, can come out with some corners.
pub uninterp spec fn found_box(pixels: Seq<(i32, i32)>, corners: Seq<(i32, i32)>) -> bool;

/// Whether the rectangle search can come out with some corners for some pixels, which it is given
/// in ascending order and without repeats.
pub open spec fn is_found(corners: [Pixel; 4], pixels: Seq<Pixel>) -> bool {
    exists|distinct: Seq<Pixel>|
        ascending(distinct) && same_pixels(distinct, pixels) && #[trigger] found_box(
            pairs(distinct),
            pairs(corners@),
        )
}

/// Whether four corners are those of the box round some pixels: the rectangle search came out with
/// them, and they fit.
pub open spec fn is_box_round(corners: [Pixel; 4], pixels: Seq<Pixel>) -> bool {
    is_found(corners, pixels) && fits_round(corners, pixels)
}

/// `min_area_rect` of the `imageproc` crate gives the corners of a rectangle that includes all the
/// pixels, in the order top left, top right, bottom right, bottom left, with their coordinates
/// rounded outwards to whole numbers. So every pixel is on the inner side of every edge, and the
/// sides are no shorter than those of an upright rectangle among the pixels, both but for the
/// rounding. Every side touches a pixel and is no longer than the greatest distance of two pixels,
/// so that no corner is further from the pixels than that, but for the rounding. Which of the
/// rectangles it is, is not a function of the pixels alone, since it comes out of trigonometric
/// functions in floating point, whose last bits differ between platforms: `found_box` holds of all
/// that can come out.
#[verifier::external_body]
fn min_area_rect(pixels: &Vec<Pixel>) -> (corners: [Pixel; 4])
    requires
        pixels@.len() > 0,
        ascending(pixels@),
        stays_within(pixels@, REACH as int),
        is_compact(pixels@),
    ensures
        fits_round(corners, pixels@),
        found_box(pairs(pixels@), pairs(corners@)),
{
    let points: Vec<imageproc::point::Point<i32>> = pixels
        .iter()
        .map(|pixel| imageproc::point::Point::new(pixel.x, pixel.y))
        .collect();
    imageproc::geometry::min_area_rect(&points).map(|point| Pixel { x: point.x, y: point.y })
}

proof fn lemma_three_distinct(distinct: Seq<Pixel>, pixels: Seq<Pixel>)
    requires
        ascending(distinct),
        same_pixels(distinct, pixels),
    ensures
        distinct.len() >= 3 <==> spans_box(pixels),
{
    if distinct.len() >= 3 {
        assert(distinct.contains(distinct[0]));
        assert(distinct.contains(distinct[1]));
        assert(distinct.contains(distinct[2]));
        let i = choose|i: int| 0 <= i < pixels.len() && pixels[i] == distinct[0];
        let j = choose|j: int| 0 <= j < pixels.len() && pixels[j] == distinct[1];
        let k = choose|k: int| 0 <= k < pixels.len() && pixels[k] == distinct[2];
        assert(pixels[i] != pixels[j] && pixels[j] != pixels[k] && pixels[i] != pixels[k]);
    }
    if spans_box(pixels) {
        let (i, j, k) = choose|i: int, j: int, k: int|
            0 <= i < pixels.len() && 0 <= j < pixels.len() && 0 <= k < pixels.len() && (
            #[trigger] pixels[i]) != (#[trigger] pixels[j]) && pixels[j] != (#[trigger] pixels[k])
                && pixels[i] != pixels[k];
        assert(pixels.contains(pixels[i]));
        assert(pixels.contains(pixels[j]));
        assert(pixels.contains(pixels[k]));
        assert(distinct.contains(pixels[i]));
        assert(distinct.contains(pixels[j]));
        assert(distinct.contains(pixels[k]));
        let a = choose|a: int| 0 <= a < distinct.len() && distinct[a] == pixels[i];
        let b = choose|b: int| 0 <= b < distinct.len() && distinct[b] == pixels[j];
        let c = choose|c: int| 0 <= c < distinct.len() && distinct[c] == pixels[k];
        assert(a != b && b != c && a != c);
    }
}

/// Pixels that span an upright rectangle are at least four, and span a box.
proof fn lemma_upright_spans_box(pixels: Seq<Pixel>, side: int)
    requires
        side > 0,
        spans_upright(pixels, side),
    ensures
        pixels.len() >= 4,
        spans_box(pixels),
{
    let (left, right, top, bottom) = choose|left: i32, right: i32, top: i32, bottom: i32|
        right - left >= side && bottom - top >= side && #[trigger] holds_corners(
            pixels,
            left,
            right,
            top,
            bottom,
        );
    let a = Pixel { x: left, y: top };
    let b = Pixel { x: right, y: top };
    let c = Pixel { x: right, y: bottom };
    let d = Pixel { x: left, y: bottom };
    let i = choose|i: int| 0 <= i < pixels.len() && pixels[i] == a;
    let j = choose|j: int| 0 <= j < pixels.len() && pixels[j] == b;
    let k = choose|k: int| 0 <= k < pixels.len() && pixels[k] == c;
    let m = choose|m: int| 0 <= m < pixels.len() && pixels[m] == d;
    assert(pixels[i] != pixels[j] && pixels[j] != pixels[k] && pixels[i] != pixels[k]);
    assert(pixels[m] != pixels[i] && pixels[m] != pixels[j] && pixels[m] != pixels[k]);
}

/// Lists with the same pixels span the same upright rectangles.
proof fn lemma_same_upright(distinct: Seq<Pixel>, pixels: Seq<Pixel>, side: int)
    requires
        same_pixels(distinct, pixels),
        spans_upright(pixels, side),
    ensures
        spans_upright(distinct, side),
{
    let (left, right, top, bottom) = choose|left: i32, right: i32, top: i32, bottom: i32|
        right - left >= side && bottom - top >= side && #[trigger] holds_corners(
            pixels,
            left,
            right,
            top,
            bottom,
        );
    assert(distinct.contains(Pixel { x: left, y: top }));
    assert(distinct.contains(Pixel { x: right, y: top }));
    assert(distinct.contains(Pixel { x: right, y: bottom }));
    assert(distinct.contains(Pixel { x: left, y: bottom }));
    assert(holds_corners(distinct, left, right, top, bottom));
}

/// What fits round one of two lists with the same pixels fits round the other.
proof fn lemma_same_fit(corners: [Pixel; 4], distinct: Seq<Pixel>, pixels: Seq<Pixel>)
    requires
        same_pixels(distinct, pixels),
        fits_round(corners, distinct),
    ensures
        fits_round(corners, pixels),
{
    assert forall|i: int| 0 <= i < pixels.len() implies encloses(corners, #[trigger] pixels[i]) by {
        let m = lemma_found_again(distinct, pixels, i);
        assert(encloses(corners, distinct[m]));
    }
    assert forall|side: int| side >= ROUNDING && #[trigger] spans_upright(
        pixels,
        side,
    ) implies sides_reach(corners, side - ROUNDING) by {
        lemma_same_upright(distinct, pixels, side);
    }
    assert forall|left: int, right: int, top: int, bottom: int| #[trigger]
        lie_between(pixels, left, right, top, bottom) implies {
        let margin = (right - left) + (bottom - top) + 2;
        &&& lies_near(corners[0], left, right, top, bottom, margin)
        &&& lies_near(corners[1], left, right, top, bottom, margin)
        &&& lies_near(corners[2], left, right, top, bottom, margin)
        &&& lies_near(corners[3], left, right, top, bottom, margin)
    } by {
        assert forall|m: int| 0 <= m < distinct.len() implies left <= (#[trigger] distinct[m]).x
            <= right && top <= distinct[m].y <= bottom by {
            let i = lemma_found_again(pixels, distinct, m);
            assert(left <= pixels[i].x <= right);
        }
        assert(lie_between(distinct, left, right, top, bottom));
    }
}

/// A pixel of one of two lists with the same pixels is found in the other.
proof fn lemma_found_again(other: Seq<Pixel>, pixels: Seq<Pixel>, i: int) -> (m: int)
    requires
        same_pixels(other, pixels) || same_pixels(pixels, other),
        0 <= i < pixels.len(),
    ensures
        0 <= m < other.len(),
        other[m] == pixels[i],
{
    assert(pixels.contains(pixels[i]));
    assert(other.contains(pixels[i]));
    choose|m: int| 0 <= m < other.len() && other[m] == pixels[i]
}

/// The rectangle search has room for one of two lists with the same pixels if it has for the other.
proof fn lemma_same_room(distinct: Seq<Pixel>, pixels: Seq<Pixel>)
    requires
        same_pixels(distinct, pixels),
    ensures
        stays_within(pixels, REACH as int) ==> stays_within(distinct, REACH as int),
        is_compact(pixels) ==> is_compact(distinct),
{
    if stays_within(pixels, REACH as int) {
        assert forall|i: int| 0 <= i < distinct.len() implies -REACH <= (
        #[trigger] distinct[i]).x <= REACH && -REACH <= distinct[i].y <= REACH by {
            let a = lemma_found_again(pixels, distinct, i);
            assert(-REACH <= pixels[a].x <= REACH);
        }
    }
    if is_compact(pixels) {
        let (left, right, top, bottom) = choose|left: int, right: int, top: int, bottom: int|
            #[trigger] lie_between(pixels, left, right, top, bottom) && is_small(
                left,
                right,
                top,
                bottom,
            );
        assert forall|i: int| 0 <= i < distinct.len() implies left <= (#[trigger] distinct[i]).x
            <= right && top <= distinct[i].y <= bottom by {
            let a = lemma_found_again(pixels, distinct, i);
            assert(left <= pixels[a].x <= right);
        }
        assert(lie_between(distinct, left, right, top, bottom));
    }
}

/// What the search comes out with for one of two lists with the same pixels, it can come out with
/// for the other.
proof fn lemma_same_box(corners: [Pixel; 4], left: Seq<Pixel>, right: Seq<Pixel>)
    requires
        same_pixels(left, right),
        is_box_round(corners, left),
    ensures
        is_box_round(corners, right),
{
    lemma_same_fit(corners, left, right);
    let distinct = choose|distinct: Seq<Pixel>|
        ascending(distinct) && same_pixels(distinct, left) && #[trigger] found_box(
            pairs(distinct),
            pairs(corners@),
        );
    assert forall|pixel: Pixel| #[trigger] distinct.contains(pixel) == right.contains(pixel) by {
        assert(left.contains(pixel) == right.contains(pixel));
    }
}

/// The corners of a box round pixels, of which at least three have to be different.
pub fn box_around(pixels: &Vec<Pixel>) -> (corners: Option<[Pixel; 4]>)
    requires
        is_searchable(pixels@),
    ensures
        corners is Some <==> spans_box(pixels@),
        corners matches Some(corners) ==> is_box_round(corners, pixels@),
{
    let distinct = distinct_pixels(pixels);
    proof {
        lemma_three_distinct(distinct@, pixels@);
        lemma_same_room(distinct@, pixels@);
    }
    if distinct.len() < 3 {
        return None;
    }
    let corners = min_area_rect(&distinct);
    proof {
        lemma_same_fit(corners, distinct@, pixels@);
        assert(is_found(corners, pixels@));
    }
    Some(corners)
}

/// Whether a box, or that there is none, is an outcome of the search round corners given by their
/// bits: there is one exactly where all coordinates are accepted and three of the pixels they round
/// to are different.
pub open spec fn is_min_area_box(points: Seq<Corner>, corners: Option<[Pixel; 4]>) -> bool {
    &&& corners is Some <==> all_places(points) && spans_box(nearest_pixels(points))
    &&& corners matches Some(corners) ==> is_box_round(corners, nearest_pixels(points))
}

/// The corners of a box round corners given by their bits, unless a coordinate is not accepted or
/// fewer than three of the pixels they round to are different.
pub fn min_area_box(points: &Vec<Corner>) -> (corners: Option<[Pixel; 4]>)
    requires
        all_places(points@) ==> is_searchable(nearest_pixels(points@)),
    ensures
        is_min_area_box(points@, corners),
{
    match round_corners(points) {
        Some(pixels) => box_around(&pixels),
        None => None,
    }
}

/// Whether two lists hold the same corners, however often and in whatever order.
pub open spec fn same_corners(left: Seq<Corner>, right: Seq<Corner>) -> bool {
    forall|corner: Corner| #[trigger] left.contains(corner) == right.contains(corner)
}

proof fn lemma_same_nearest(left: Seq<Corner>, right: Seq<Corner>)
    requires
        same_corners(left, right),
    ensures
        all_places(left) ==> all_places(right),
        forall|pixel: Pixel| #[trigger]
            nearest_pixels(right).contains(pixel) ==> nearest_pixels(left).contains(pixel),
{
    if all_places(left) {
        assert forall|i: int| 0 <= i < right.len() implies is_place(#[trigger] right[i]) by {
            assert(right.contains(right[i]));
            assert(left.contains(right[i]));
            let m = choose|m: int| 0 <= m < left.len() && left[m] == right[i];
            assert(is_place(left[m]));
        }
    }
    assert forall|pixel: Pixel| #[trigger]
        nearest_pixels(right).contains(pixel) implies nearest_pixels(left).contains(pixel) by {
        let i = choose|i: int|
            0 <= i < nearest_pixels(right).len() && nearest_pixels(right)[i] == pixel;
        assert(right.contains(right[i]));
        assert(left.contains(right[i]));
        let m = choose|m: int| 0 <= m < left.len() && left[m] == right[i];
        assert(nearest_pixels(left)[m] == pixel);
    }
}

proof fn lemma_same_span(left: Seq<Pixel>, right: Seq<Pixel>)
    requires
        same_pixels(left, right),
        spans_box(left),
    ensures
        spans_box(right),
{
    let (i, j, k) = choose|i: int, j: int, k: int|
        0 <= i < left.len() && 0 <= j < left.len() && 0 <= k < left.len() && (#[trigger] left[i])
            != (#[trigger] left[j]) && left[j] != (#[trigger] left[k]) && left[i] != left[k];
    let a = lemma_found_again(right, left, i);
    let b = lemma_found_again(right, left, j);
    let c = lemma_found_again(right, left, k);
    assert(right[a] != right[b] && right[b] != right[c] && right[a] != right[c]);
}

/// Neither the order of corners nor repeats of them matter for the box round them: the same
/// corners are accepted, the same span a box, the search is given one and the same list of pixels,
/// and what it comes out with for that list is the box round both.
pub proof fn law_order_and_repeats_do_not_matter(
    left: Seq<Corner>,
    right: Seq<Corner>,
    first: Seq<Pixel>,
    second: Seq<Pixel>,
    corners: [Pixel; 4],
)
    requires
        same_corners(left, right),
    ensures
        all_places(left) == all_places(right),
        spans_box(nearest_pixels(left)) == spans_box(nearest_pixels(right)),
        is_searchable(nearest_pixels(left)) == is_searchable(nearest_pixels(right)),
        ascending(first) && same_pixels(first, nearest_pixels(left)) && ascending(second)
            && same_pixels(second, nearest_pixels(right)) ==> first == second,
        ascending(first) && same_pixels(first, nearest_pixels(left)) && (is_box_round(
            corners,
            nearest_pixels(left),
        ) || is_box_round(corners, nearest_pixels(right))) ==> found_box(
            pairs(first),
            pairs(corners@),
        ),
        is_box_round(corners, nearest_pixels(left)) == is_box_round(
            corners,
            nearest_pixels(right),
        ),
{
    assert(same_corners(right, left)) by {
        assert forall|corner: Corner| #[trigger] right.contains(corner) == left.contains(corner) by {
            assert(left.contains(corner) == right.contains(corner));
        }
    }
    lemma_same_nearest(left, right);
    lemma_same_nearest(right, left);
    let a = nearest_pixels(left);
    let b = nearest_pixels(right);
    assert(same_pixels(a, b)) by {
        assert forall|pixel: Pixel| #[trigger] a.contains(pixel) == b.contains(pixel) by {
            assert(b.contains(pixel) ==> a.contains(pixel));
        }
    }
    assert(same_pixels(b, a)) by {
        assert forall|pixel: Pixel| #[trigger] b.contains(pixel) == a.contains(pixel) by {
            assert(a.contains(pixel) == b.contains(pixel));
        }
    }
    if spans_box(a) {
        lemma_same_span(a, b);
    }
    if spans_box(b) {
        lemma_same_span(b, a);
    }
    lemma_same_room(a, b);
    lemma_same_room(b, a);
    if is_box_round(corners, a) {
        lemma_same_box(corners, a, b);
    }
    if is_box_round(corners, b) {
        lemma_same_box(corners, b, a);
    }
    if ascending(first) && same_pixels(first, a) && ascending(second) && same_pixels(second, b) {
        assert forall|pixel: Pixel| #[trigger] first.contains(pixel) == second.contains(pixel) by {
            assert(first.contains(pixel) == a.contains(pixel));
            assert(a.contains(pixel) == b.contains(pixel));
            assert(second.contains(pixel) == b.contains(pixel));
        }
        law_distinct_is_determined(first, second);
    }
    if ascending(first) && same_pixels(first, a) && (is_box_round(corners, a) || is_box_round(
        corners,
        b,
    )) {
        assert(is_found(corners, a));
        let given = choose|given: Seq<Pixel>|
            ascending(given) && same_pixels(given, a) && #[trigger] found_box(
                pairs(given),
                pairs(corners@),
            );
        assert forall|pixel: Pixel| #[trigger] first.contains(pixel) == given.contains(pixel) by {
            assert(first.contains(pixel) == a.contains(pixel));
            assert(given.contains(pixel) == a.contains(pixel));
        }
        law_distinct_is_determined(first, given);
    }
}

/// A call for some corners and a call for the same corners in another order, or with repeats, agree:
/// both give a box or neither does, what either gives is an outcome of the other too, and the boxes
/// are outcomes of one search, for one list of pixels. The search itself may still differ from call
/// to call in what it rounds to.
pub proof fn law_calls_for_the_same_corners_agree(
    left: Seq<Corner>,
    right: Seq<Corner>,
    one: Option<[Pixel; 4]>,
    other: Option<[Pixel; 4]>,
)
    requires
        same_corners(left, right),
        is_min_area_box(left, one),
        is_min_area_box(right, other),
    ensures
        one is Some == other is Some,
        is_min_area_box(right, one),
        is_min_area_box(left, other),
        one is Some ==> exists|given: Seq<Pixel>|
            ascending(given) && same_pixels(given, nearest_pixels(left)) && #[trigger] found_box(
                pairs(given),
                pairs(one->0@),
            ) && found_box(pairs(given), pairs(other->0@)),
{
    let pixels = nearest_pixels(left);
    law_order_and_repeats_do_not_matter(left, right, pixels, pixels, one->0);
    law_order_and_repeats_do_not_matter(left, right, pixels, pixels, other->0);
    if one is Some {
        let given = choose|given: Seq<Pixel>|
            ascending(given) && same_pixels(given, pixels) && #[trigger] found_box(
                pairs(given),
                pairs(one->0@),
            );
        law_order_and_repeats_do_not_matter(left, right, given, given, other->0);
    }
}

/// The square of the distance between two pixels.
fn distance_squared(a: Pixel, b: Pixel) -> (square: i128)
    ensures
        square == squared_distance(a, b),
{
    let x: i128 = a.x as i128 - b.x as i128;
    let y: i128 = a.y as i128 - b.y as i128;
    assert(0 <= x * x <= 0x1_0000_0000_0000_0000) by (nonlinear_arith)
        requires
            -0x1_0000_0000 <= x <= 0x1_0000_0000,
    ;
    assert(0 <= y * y <= 0x1_0000_0000_0000_0000) by (nonlinear_arith)
        requires
            -0x1_0000_0000 <= y <= 0x1_0000_0000,
    ;
    x * x + y * y
}

/// Whether all sides of a box are at least `least` long.
pub fn min_side_reaches(corners: &[Pixel; 4], least: u32) -> (reached: bool)
    ensures
        reached == sides_reach(*corners, least as int),
{
    assert(0 <= least as i128 * least as i128 <= 0x1_0000_0000_0000_0000) by (nonlinear_arith)
        requires
            0 <= least as i128 <= 0x1_0000_0000,
    ;
    let square: i128 = least as i128 * least as i128;
    distance_squared(corners[0], corners[1]) >= square && distance_squared(corners[1], corners[2])
        >= square && distance_squared(corners[2], corners[3]) >= square && distance_squared(
        corners[0],
        corners[3],
    ) >= square
}

/// The least side of the box round the pixels of a piece of text.
pub const MINI_SIDE: u32 = 3;

/// The least side of the box round the widened outline of a piece of text.
pub const BOX_SIDE: u32 = 5;

/// The greatest coordinate that is accepted, either way.
pub const COORDINATE_LIMIT: i32 = 1_000_000;

/// The box round the simplified border of a region, of which at least four points have to be left,
/// all with accepted coordinates, and no side may be too short. Nothing else is refused, and points
/// that span a large enough upright rectangle always have one.
pub fn mini_box(points: &Vec<Pixel>) -> (corners: Option<[Pixel; 4]>)
    requires
        points@.len() >= 4 && stays_within(points@, COORDINATE_LIMIT as int) ==> is_searchable(
            points@,
        ),
    ensures
        points@.len() < 4 || !stays_within(points@, COORDINATE_LIMIT as int) || !spans_box(points@)
            ==> corners is None,
        stays_within(points@, COORDINATE_LIMIT as int) && spans_upright(
            points@,
            MINI_SIDE + ROUNDING,
        ) ==> corners is Some,
        corners matches Some(corners) ==> is_box_round(corners, points@) && sides_reach(
            corners,
            MINI_SIDE as int,
        ),
        corners is None ==> points@.len() < 4 || !stays_within(points@, COORDINATE_LIMIT as int)
            || !spans_box(points@) || exists|found: [Pixel; 4]| #[trigger]
            is_box_round(found, points@) && !sides_reach(found, MINI_SIDE as int),
{
    proof {
        if spans_upright(points@, MINI_SIDE + ROUNDING) {
            lemma_upright_spans_box(points@, MINI_SIDE + ROUNDING);
        }
    }
    if points.len() < 4 || !within(points, COORDINATE_LIMIT) {
        return None;
    }
    match box_around(points) {
        Some(corners) => keep_box(corners, MINI_SIDE),
        None => None,
    }
}

/// Keeps a box unless one of its sides is too short.
pub fn keep_box(corners: [Pixel; 4], least: u32) -> (kept: Option<[Pixel; 4]>)
    ensures
        kept == (if sides_reach(corners, least as int) {
            Some(corners)
        } else {
            None
        }),
{
    if min_side_reaches(&corners, least) {
        Some(corners)
    } else {
        None
    }
}

/// The box round a widened outline, unless a coordinate is not accepted, the outline spans none,
/// or one of its sides is too short. No other outline is refused, and one that spans a large enough
/// upright rectangle always has one.
pub fn expanded_box(points: &Vec<Corner>) -> (corners: Option<[Pixel; 4]>)
    requires
        all_places(points@) ==> is_searchable(nearest_pixels(points@)),
    ensures
        !all_places(points@) || !spans_box(nearest_pixels(points@)) ==> corners is None,
        all_places(points@) && spans_upright(nearest_pixels(points@), BOX_SIDE + ROUNDING)
            ==> corners is Some,
        corners matches Some(corners) ==> is_box_round(corners, nearest_pixels(points@))
            && sides_reach(corners, BOX_SIDE as int),
        corners is None ==> !all_places(points@) || !spans_box(nearest_pixels(points@))
            || exists|found: [Pixel; 4]| #[trigger]
            is_box_round(found, nearest_pixels(points@)) && !sides_reach(found, BOX_SIDE as int),
{
    proof {
        if spans_upright(nearest_pixels(points@), BOX_SIDE + ROUNDING) {
            lemma_upright_spans_box(nearest_pixels(points@), BOX_SIDE + ROUNDING);
        }
    }
    match min_area_box(points) {
        Some(corners) => keep_box(corners, BOX_SIDE),
        None => None,
    }
}

/// Whether the number with these bits is less than the least score of a box.
pub open spec fn below_box_threshold(bits: u32) -> bool {
    bits < BOX_THRESHOLD_BITS || 0x8000_0000 <= bits <= 0xff80_0000
}

/// Whether the mean score of a box is high enough; one that is not a number counts as such.
pub fn confident(score: u32) -> (found: bool)
    ensures
        found == !below_box_threshold(score),
{
    !(score < BOX_THRESHOLD_BITS || (0x8000_0000 <= score && score <= 0xff80_0000))
}

/// `value` brought into the range from zero to the last of `count` places, zero where there are
/// none.
pub open spec fn clamped(value: int, count: int) -> int {
    if value < 0 || count <= 1 {
        0
    } else if value >= count {
        count - 1
    } else {
        value
    }
}

/// The least of four numbers.
pub open spec fn least4(a: int, b: int, c: int, d: int) -> int {
    crate::arith::lesser(crate::arith::lesser(a, b), crate::arith::lesser(c, d))
}

/// The greatest of four numbers.
pub open spec fn greatest4(a: int, b: int, c: int, d: int) -> int {
    crate::arith::greater(crate::arith::greater(a, b), crate::arith::greater(c, d))
}

/// The pixels whose scores can count for a box: columns and rows, first and last.
#[derive(Debug, Clone, Copy, PartialEq, Eq, Structural)]
pub struct Window {
    /// First column.
    pub left: usize,
    /// Last column.
    pub right: usize,
    /// First row.
    pub top: usize,
    /// Last row.
    pub bottom: usize,
}

/// Brings a coordinate into an image.
fn clamp(value: i32, count: usize) -> (place: usize)
    ensures
        place == clamped(value as int, count as int),
{
    if value < 0 || count <= 1 {
        0
    } else if value as u64 >= count as u64 {
        count - 1
    } else {
        value as usize
    }
}

/// The lesser of two coordinates.
fn lesser(a: i32, b: i32) -> (c: i32)
    ensures
        c == crate::arith::lesser(a as int, b as int),
{
    if a < b {
        a
    } else {
        b
    }
}

/// The greater of two coordinates.
fn greater(a: i32, b: i32) -> (c: i32)
    ensures
        c == crate::arith::greater(a as int, b as int),
{
    if a > b {
        a
    } else {
        b
    }
}

/// The window of a box in a `width` by `height` image.
pub fn score_window(corners: &[Pixel; 4], width: usize, height: usize) -> (window: Window)
    ensures
        window.left == clamped(
            least4(
                corners[0].x as int,
                corners[1].x as int,
                corners[2].x as int,
                corners[3].x as int,
            ),
            width as int,
        ),
        window.right == clamped(
            greatest4(
                corners[0].x as int,
                corners[1].x as int,
                corners[2].x as int,
                corners[3].x as int,
            ),
            width as int,
        ),
        window.top == clamped(
            least4(
                corners[0].y as int,
                corners[1].y as int,
                corners[2].y as int,
                corners[3].y as int,
            ),
            height as int,
        ),
        window.bottom == clamped(
            greatest4(
                corners[0].y as int,
                corners[1].y as int,
                corners[2].y as int,
                corners[3].y as int,
            ),
            height as int,
        ),
{
    let (a, b, c, d) = (corners[0], corners[1], corners[2], corners[3]);
    Window {
        left: clamp(lesser(lesser(a.x, b.x), lesser(c.x, d.x)), width),
        right: clamp(greater(greater(a.x, b.x), greater(c.x, d.x)), width),
        top: clamp(lesser(lesser(a.y, b.y), lesser(c.y, d.y)), height),
        bottom: clamp(greater(greater(a.y, b.y), greater(c.y, d.y)), height),
    }
}

/// What the side from `a` to `b` adds to twice the signed area of a polygon.
pub open spec fn side_area(a: Pixel, b: Pixel) -> int {
    a.x * b.y - a.y * b.x
}

/// Twice the area of a box.
pub open spec fn double_area(corners: [Pixel; 4]) -> int {
    let sum = side_area(corners[0], corners[1]) + side_area(corners[1], corners[2]) + side_area(
        corners[2],
        corners[3],
    ) + side_area(corners[3], corners[0]);
    if sum < 0 {
        -sum
    } else {
        sum
    }
}

/// What the side from `a` to `b` adds to twice the signed area of a polygon.
fn area_of_side(a: Pixel, b: Pixel) -> (area: i128)
    ensures
        area == side_area(a, b),
        -0x8000_0000_0000_0000 <= area <= 0x8000_0000_0000_0000,
{
    assert(-0x4000_0000_0000_0000 <= a.x as i128 * b.y as i128 <= 0x4000_0000_0000_0000)
        by (nonlinear_arith)
        requires
            -0x8000_0000 <= a.x as i128 <= 0x8000_0000,
            -0x8000_0000 <= b.y as i128 <= 0x8000_0000,
    ;
    assert(-0x4000_0000_0000_0000 <= a.y as i128 * b.x as i128 <= 0x4000_0000_0000_0000)
        by (nonlinear_arith)
        requires
            -0x8000_0000 <= a.y as i128 <= 0x8000_0000,
            -0x8000_0000 <= b.x as i128 <= 0x8000_0000,
    ;
    a.x as i128 * b.y as i128 - a.y as i128 * b.x as i128
}

/// Twice the area of a box.
pub fn polygon_area(corners: &[Pixel; 4]) -> (area: i128)
    ensures
        area == double_area(*corners),
{
    let sum: i128 = area_of_side(corners[0], corners[1]) + area_of_side(corners[1], corners[2])
        + area_of_side(corners[2], corners[3]) + area_of_side(corners[3], corners[0]);
    if sum < 0 {
        -sum
    } else {
        sum
    }
}

/// Scores up to one fifth are not taken for text and all above it are, up to infinity; neither are
/// scores with a sign, nor what is not a number. Every pixel is marked by its own score.
pub proof fn law_high_scores_are_text(scores: Seq<u32>, i: int)
    requires
        0 <= i < scores.len(),
    ensures
        text_pixels(scores).len() == scores.len(),
        scores[i] <= 0x3e4c_cccd ==> text_pixels(scores)[i] == 0,
        0x3e4c_cccd < scores[i] <= 0x7f80_0000 ==> text_pixels(scores)[i] == 255,
        scores[i] > 0x7f80_0000 ==> text_pixels(scores)[i] == 0,
{
}

/// A further border is a candidate exactly if it is the outer border of a region and has at least
/// three pixels; it comes behind the candidates before it, as it is.
pub proof fn law_outer_borders_are_candidates(
    borders: Seq<(Seq<(i32, i32)>, bool)>,
    points: Seq<(i32, i32)>,
    hole: bool,
)
    ensures
        candidates_of(Seq::empty()) == Seq::<Seq<(i32, i32)>>::empty(),
        !hole && points.len() >= 3 ==> candidates_of(borders.push((points, hole))) == candidates_of(
            borders,
        ).push(points),
        hole || points.len() < 3 ==> candidates_of(borders.push((points, hole))) == candidates_of(
            borders,
        ),
{
    assert(borders.push((points, hole)).drop_last() == borders);
}

/// The first 3000 borders are looked at, in their order, and no further ones.
pub proof fn law_first_borders_are_looked_at(borders: Seq<(Seq<(i32, i32)>, bool)>, i: int)
    ensures
        first_borders(borders).len() <= 3000,
        borders.len() <= 3000 ==> first_borders(borders) == borders,
        borders.len() > 3000 ==> first_borders(borders).len() == 3000,
        0 <= i < first_borders(borders).len() ==> first_borders(borders)[i] == borders[i],
{
}

/// A coordinate is worth its significand, halved as often as its exponent says: with the exponent
/// field `e` and the fraction field `f` it is the fraction with a leading one in front, halved 150
/// times less the exponent. The sign does not matter for that.
pub proof fn law_coordinate_is_significand_and_exponent(bits: u32, sign: bool, e: int, f: int)
    requires
        0 <= e <= 0xff,
        0 <= f < 0x80_0000,
        bits == (if sign {
            0x8000_0000int
        } else {
            0
        }) + e * 0x80_0000 + f,
    ensures
        e > 0 ==> significand(bits) == 0x80_0000 + f && halvings(bits) == 150 - e,
        e == 0 ==> significand(bits) == f && halvings(bits) == 149,
{
    assert(magnitude_bits(bits) == e * 0x80_0000 + f);
}

/// A coordinate is accepted exactly if it is at most one million either way.
pub proof fn law_coordinates_up_to_a_million_are_accepted(bits: u32)
    ensures
        halvings(bits) >= 0 ==> (is_coordinate(bits) <==> significand(bits) <= 1_000_000 * pow2(
            halvings(bits) as nat,
        )),
        halvings(bits) < 0 ==> !is_coordinate(bits),
{
    let h = halvings(bits);
    lemma2_to64();
    if h >= 5 {
        if h > 5 {
            lemma_pow2_strictly_increases(5, h as nat);
        }
    }
}

/// Rounding gives the whole number that is nearest, and of two that are equally near the one further
/// from zero; it keeps the sign.
pub proof fn law_rounding_gives_the_nearest(bits: u32)
    requires
        is_coordinate(bits),
    ensures
        ({
            let unit = pow2(halvings(bits) as nat) as int;
            let magnitude = if nearest(bits) < 0 {
                -nearest(bits)
            } else {
                nearest(bits)
            };
            &&& (2 * magnitude - 1) * unit <= 2 * significand(bits)
            &&& 2 * significand(bits) < (2 * magnitude + 1) * unit
            &&& bits < 0x8000_0000 ==> nearest(bits) >= 0
            &&& bits >= 0x8000_0000 ==> nearest(bits) <= 0
        }),
{
    let unit = pow2(halvings(bits) as nat) as int;
    lemma_pow2_pos(halvings(bits) as nat);
    let total = 2 * significand(bits) + unit;
    lemma_fundamental_div_mod(total, 2 * unit);
    let q = total / (2 * unit);
    let r = total % (2 * unit);
    lemma_div_pos_is_pos(total, 2 * unit);
    assert((2 * q - 1) * unit <= total - unit && total - unit < (2 * q + 1) * unit)
        by (nonlinear_arith)
        requires
            total == 2 * unit * q + r,
            0 <= r < 2 * unit,
    ;
}

/// A corner is rounded in each of its coordinates, and corners one by one.
pub proof fn law_corners_are_rounded_one_by_one(corners: Seq<Corner>, i: int)
    requires
        0 <= i < corners.len(),
    ensures
        nearest_pixels(corners).len() == corners.len(),
        nearest_pixels(corners)[i].x == nearest(corners[i].x) as i32,
        nearest_pixels(corners)[i].y == nearest(corners[i].y) as i32,
        is_place(corners[i]) <==> is_coordinate(corners[i].x) && is_coordinate(corners[i].y),
{
}

/// Pixels are ordered by their columns, and those in one column by their rows.
pub proof fn law_pixels_go_by_column_then_row(a: Pixel, b: Pixel)
    ensures
        pixel_key(a) < pixel_key(b) <==> a.x < b.x || a.x == b.x && a.y < b.y,
        pixel_key(a) == pixel_key(b) <==> a == b,
{
}

/// Of an upright box, all sides reach a length exactly if its width and its height do.
pub proof fn law_upright_box_reaches_by_width_and_height(
    left: i32,
    top: i32,
    right: i32,
    bottom: i32,
    least: int,
)
    requires
        left <= right,
        top <= bottom,
        least >= 0,
    ensures
        sides_reach(
            [
                Pixel { x: left, y: top },
                Pixel { x: right, y: top },
                Pixel { x: right, y: bottom },
                Pixel { x: left, y: bottom },
            ],
            least,
        ) <==> right - left >= least && bottom - top >= least,
{
    let (w, h) = (right - left, bottom - top);
    assert(w * w >= least * least <==> w >= least) by (nonlinear_arith)
        requires
            w >= 0,
            least >= 0,
    ;
    assert(h * h >= least * least <==> h >= least) by (nonlinear_arith)
        requires
            h >= 0,
            least >= 0,
    ;
    assert((left - right) * (left - right) == w * w && (top - bottom) * (top - bottom) == h * h)
        by (nonlinear_arith)
        requires
            w == right - left,
            h == bottom - top,
    ;
    assert((right - left) * (right - left) == w * w && (left - left) * (left - left) == 0 && (top
        - top) * (top - top) == 0);
}

/// The distance of two pixels is that of a right triangle along columns and rows, from either end.
pub proof fn law_distance_along_columns_and_rows(a: Pixel, b: Pixel)
    ensures
        squared_distance(a, b) == squared_distance(b, a),
        a.y == b.y ==> squared_distance(a, b) == (b.x - a.x) * (b.x - a.x),
        a.x == b.x ==> squared_distance(a, b) == (b.y - a.y) * (b.y - a.y),
        squared_distance(a, b) == squared_distance(a, Pixel { x: b.x, y: a.y }) + squared_distance(
            Pixel { x: b.x, y: a.y },
            b,
        ),
        squared_distance(a, b) == 0 <==> a == b,
{
    let (x, y) = (b.x - a.x, b.y - a.y);
    assert((a.x - b.x) * (a.x - b.x) == x * x && (a.y - b.y) * (a.y - b.y) == y * y)
        by (nonlinear_arith)
        requires
            x == b.x - a.x,
            y == b.y - a.y,
    ;
    assert(x * x >= 0 && y * y >= 0 && (x * x == 0 <==> x == 0) && (y * y == 0 <==> y == 0))
        by (nonlinear_arith);
    let corner = Pixel { x: b.x, y: a.y };
    assert((a.y - corner.y) * (a.y - corner.y) == 0 && (corner.x - b.x) * (corner.x - b.x) == 0)
        by (nonlinear_arith)
        requires
            a.y == corner.y,
            b.x == corner.x,
    ;
    assert((a.x - corner.x) * (a.x - corner.x) == (a.x - b.x) * (a.x - b.x));
    assert((corner.y - b.y) * (corner.y - b.y) == (a.y - b.y) * (a.y - b.y));
}

/// A score is high enough exactly if it is not below 0.45: negative scores are, down to infinity, and
/// what is not a number is not.
pub proof fn law_low_scores_are_not_confident(score: u32)
    ensures
        score < 0x3ee6_6666 ==> below_box_threshold(score),
        0x3ee6_6666 <= score < 0x8000_0000 ==> !below_box_threshold(score),
        0x8000_0000 <= score <= 0xff80_0000 ==> below_box_threshold(score),
        score > 0xff80_0000 ==> !below_box_threshold(score),
{
}

/// A place within the image stays, one before it becomes the first and one behind it the last.
pub proof fn law_places_are_brought_into_the_image(value: int, count: int)
    requires
        count >= 1,
    ensures
        0 <= clamped(value, count) < count,
        0 <= value < count ==> clamped(value, count) == value,
        value < 0 ==> clamped(value, count) == 0,
        value >= count ==> clamped(value, count) == count - 1,
{
}

/// The least of four numbers is one of them and exceeds none; the greatest is one of them and none
/// exceeds it.
pub proof fn law_least_and_greatest_of_four(a: int, b: int, c: int, d: int)
    ensures
        least4(a, b, c, d) <= a && least4(a, b, c, d) <= b && least4(a, b, c, d) <= c && least4(
            a,
            b,
            c,
            d,
        ) <= d,
        least4(a, b, c, d) == a || least4(a, b, c, d) == b || least4(a, b, c, d) == c || least4(
            a,
            b,
            c,
            d,
        ) == d,
        greatest4(a, b, c, d) >= a && greatest4(a, b, c, d) >= b && greatest4(a, b, c, d) >= c
            && greatest4(a, b, c, d) >= d,
        greatest4(a, b, c, d) == a || greatest4(a, b, c, d) == b || greatest4(a, b, c, d) == c
            || greatest4(a, b, c, d) == d,
{
}

/// Twice the area of a box is the product of its diagonals, each taken across the other; it is the
/// same whichever way round the corners come.
pub proof fn law_area_from_the_diagonals(corners: [Pixel; 4])
    ensures
        ({
            let (x, y) = (corners[2].x - corners[0].x, corners[2].y - corners[0].y);
            let (u, v) = (corners[3].x - corners[1].x, corners[3].y - corners[1].y);
            double_area(corners) == x * v - y * u || double_area(corners) == y * u - x * v
        }),
        double_area(corners) >= 0,
        double_area([corners[3], corners[2], corners[1], corners[0]]) == double_area(corners),
{
    let (a, b, c, d) = (corners[0], corners[1], corners[2], corners[3]);
    let (x, y) = (c.x - a.x, c.y - a.y);
    let (u, v) = (d.x - b.x, d.y - b.y);
    assert(side_area(a, b) + side_area(b, c) + side_area(c, d) + side_area(d, a) == x * v - y * u)
        by (nonlinear_arith)
        requires
            side_area(a, b) == a.x * b.y - a.y * b.x,
            side_area(b, c) == b.x * c.y - b.y * c.x,
            side_area(c, d) == c.x * d.y - c.y * d.x,
            side_area(d, a) == d.x * a.y - d.y * a.x,
            x == c.x - a.x,
            y == c.y - a.y,
            u == d.x - b.x,
            v == d.y - b.y,
    ;
    assert(side_area(b, a) == -side_area(a, b) && side_area(c, b) == -side_area(b, c) && side_area(
        d,
        c,
    ) == -side_area(c, d) && side_area(a, d) == -side_area(d, a)) by (nonlinear_arith)
        requires
            side_area(a, b) == a.x * b.y - a.y * b.x,
            side_area(b, c) == b.x * c.y - b.y * c.x,
            side_area(c, d) == c.x * d.y - c.y * d.x,
            side_area(d, a) == d.x * a.y - d.y * a.x,
            side_area(b, a) == b.x * a.y - b.y * a.x,
            side_area(c, b) == c.x * b.y - c.y * b.x,
            side_area(d, c) == d.x * c.y - d.y * c.x,
            side_area(a, d) == a.x * d.y - a.y * d.x,
    ;
}

/// Three different pixels span a box, and two do not, however often they occur.
pub proof fn law_three_pixels_span_a_box(pixels: Seq<Pixel>, a: Pixel, b: Pixel, c: Pixel)
    ensures
        pixels.contains(a) && pixels.contains(b) && pixels.contains(c) && a != b && b != c && a != c
            ==> spans_box(pixels),
        (forall|i: int| 0 <= i < pixels.len() ==> (#[trigger] pixels[i] == a || pixels[i] == b))
            ==> !spans_box(pixels),
{
    if pixels.contains(a) && pixels.contains(b) && pixels.contains(c) && a != b && b != c && a
        != c {
        let i = choose|i: int| 0 <= i < pixels.len() && pixels[i] == a;
        let j = choose|j: int| 0 <= j < pixels.len() && pixels[j] == b;
        let k = choose|k: int| 0 <= k < pixels.len() && pixels[k] == c;
        assert(pixels[i] != pixels[j] && pixels[j] != pixels[k] && pixels[i] != pixels[k]);
    }
}

/// Coordinates up to one million are accepted, and boxes with sides of at least three pixels, once
/// they were widened of at least five, are kept.
pub proof fn law_limits_of_boxes(corners: [Pixel; 4])
    ensures
        COORDINATE_LIMIT == 1_000_000,
        sides_reach(corners, MINI_SIDE as int) <==> {
            &&& squared_distance(corners[0], corners[1]) >= 9
            &&& squared_distance(corners[1], corners[2]) >= 9
            &&& squared_distance(corners[2], corners[3]) >= 9
            &&& squared_distance(corners[3], corners[0]) >= 9
        },
        sides_reach(corners, BOX_SIDE as int) <==> {
            &&& squared_distance(corners[0], corners[1]) >= 25
            &&& squared_distance(corners[1], corners[2]) >= 25
            &&& squared_distance(corners[2], corners[3]) >= 25
            &&& squared_distance(corners[3], corners[0]) >= 25
        },
{
    law_distance_along_columns_and_rows(corners[0], corners[3]);
}

/// The views of pixels and borders have every pixel in its place, column before row, and tell whether
/// a border is that of a hole.
pub proof fn law_views_keep_pixels(borders: Seq<Border>, lists: Seq<Vec<Pixel>>, i: int, k: int)
    ensures
        0 <= i < borders.len() ==> {
            &&& borders_view(borders).len() == borders.len()
            &&& borders_view(borders)[i].1 == borders[i].hole
            &&& borders_view(borders)[i].0.len() == borders[i].points@.len()
            &&& 0 <= k < borders[i].points@.len() ==> borders_view(borders)[i].0[k] == (
                borders[i].points@[k].x,
                borders[i].points@[k].y,
            )
        },
        0 <= i < lists.len() ==> {
            &&& pixel_lists(lists).len() == lists.len()
            &&& pixel_lists(lists)[i].len() == lists[i]@.len()
            &&& 0 <= k < lists[i]@.len() ==> pixel_lists(lists)[i][k] == (
                lists[i]@[k].x,
                lists[i]@[k].y,
            )
        },
{
}

} // verus!
