//! Text detection: the network's input, the boxes, and the lines they form.
use crate::arith;
use crate::ocr::picture;
use crate::ocr::recognition;
use crate::ocr::OcrError;
use crate::order;
use vstd::arithmetic::div_mod::*;
use vstd::multiset::Multiset;
use vstd::prelude::*;

verus! {

/// The greatest side of an image that is given to the network.
pub const MAX_SIDE: u32 = 960;

/// The sides of a network input are multiples of this.
pub const STRIDE: u32 = 32;

/// An upright rectangle in an image, in pixels.
#[derive(Debug, Clone, Copy, PartialEq, Eq, Structural)]
pub struct Rect {
    /// First column.
    pub left: u32,
    /// Column behind the last one.
    pub right: u32,
    /// First row.
    pub top: u32,
    /// Row behind the last one.
    pub bottom: u32,
}

impl Rect {
    /// The number of rows, none where the bottom lies above the top.
    pub open spec fn rows(self) -> int {
        if self.bottom > self.top {
            self.bottom - self.top
        } else {
            0
        }
    }

    /// The number of rows, none where the bottom lies above the top.
    pub fn height(self) -> (height: u32)
        ensures
            height == self.rows(),
    {
        if self.bottom > self.top {
            self.bottom - self.top
        } else {
            0
        }
    }
}

/// A corner of a text box: the bit patterns of its single-precision coordinates.
#[derive(Debug, Clone, Copy, PartialEq, Eq, Structural)]
pub struct Corner {
    /// Bits of the horizontal coordinate.
    pub x: u32,
    /// Bits of the vertical coordinate.
    pub y: u32,
}

/// A piece of text in an image.
#[derive(Debug, Clone, Copy)]
pub struct TextBox {
    /// Its corners: top left, top right, bottom right, bottom left.
    pub points: [Corner; 4],
    /// An upright rectangle round it.
    pub bounds: Rect,
}

/// Whether two boxes stand on one line: the rows they share are at least half of the lower box.
pub open spec fn on_same_line(left: TextBox, right: TextBox) -> bool {
    let shared = arith::excess(
        arith::lesser(left.bounds.bottom as int, right.bounds.bottom as int),
        arith::greater(left.bounds.top as int, right.bounds.top as int),
    );
    2 * shared >= arith::lesser(left.bounds.rows(), right.bounds.rows())
}

/// Whether two boxes stand on one line.
pub fn same_line(left: &TextBox, right: &TextBox) -> (same: bool)
    ensures
        same == on_same_line(*left, *right),
{
    let top: u32 = if left.bounds.top > right.bounds.top {
        left.bounds.top
    } else {
        right.bounds.top
    };
    let bottom: u32 = if left.bounds.bottom < right.bounds.bottom {
        left.bounds.bottom
    } else {
        right.bounds.bottom
    };
    let overlap: u32 = bottom.saturating_sub(top);
    let left_height: u32 = left.bounds.height();
    let right_height: u32 = right.bounds.height();
    let height: u32 = if left_height < right_height {
        left_height
    } else {
        right_height
    };
    arith::capped_product(overlap, 2) >= height
}

/// Whether a box of `line` stands on one line with `text_box`.
pub open spec fn line_takes(line: Seq<TextBox>, text_box: TextBox) -> bool {
    exists|i: int| 0 <= i < line.len() && on_same_line(#[trigger] line[i], text_box)
}

/// The last of `lines` that takes `text_box`.
pub open spec fn last_line_taking(lines: Seq<Seq<TextBox>>, text_box: TextBox) -> Option<int>
    decreases lines.len(),
{
    if lines.len() == 0 {
        None
    } else if line_takes(lines.last(), text_box) {
        Some(lines.len() - 1)
    } else {
        last_line_taking(lines.drop_last(), text_box)
    }
}

/// `lines` with `text_box` at the end of the last line that takes it, else on a new line.
pub open spec fn with_box(lines: Seq<Seq<TextBox>>, text_box: TextBox) -> Seq<Seq<TextBox>> {
    match last_line_taking(lines, text_box) {
        Some(i) => lines.update(i, lines[i].push(text_box)),
        None => lines.push(seq![text_box]),
    }
}

/// The lines that `boxes` form, taken one after the other.
pub open spec fn gathered(boxes: Seq<TextBox>) -> Seq<Seq<TextBox>>
    decreases boxes.len(),
{
    if boxes.len() == 0 {
        Seq::empty()
    } else {
        with_box(gathered(boxes.drop_last()), boxes.last())
    }
}

/// The left edges of `line`.
pub open spec fn left_edges(line: Seq<TextBox>) -> Seq<u64> {
    line.map_values(|text_box: TextBox| text_box.bounds.left as u64)
}

/// `line` from left to right; boxes with the same left edge keep their order.
pub open spec fn left_to_right(line: Seq<TextBox>) -> Seq<TextBox> {
    order::picked(line, order::stable_order(left_edges(line)))
}

/// The lines that `boxes` form, each from left to right.
pub open spec fn grouped(boxes: Seq<TextBox>) -> Seq<Seq<TextBox>> {
    gathered(boxes).map_values(|line: Seq<TextBox>| left_to_right(line))
}

/// The contents of a list of lines.
pub open spec fn lines_view(lines: Seq<Vec<TextBox>>) -> Seq<Seq<TextBox>> {
    lines.map_values(|line: Vec<TextBox>| line@)
}

proof fn lemma_last_line_taking(lines: Seq<Seq<TextBox>>, text_box: TextBox, i: int)
    requires
        0 <= i <= lines.len(),
        forall|j: int| i <= j < lines.len() ==> !line_takes(#[trigger] lines[j], text_box),
    ensures
        i > 0 && line_takes(lines[i - 1], text_box) ==> last_line_taking(lines, text_box) == Some(
            i - 1,
        ),
        i == 0 ==> last_line_taking(lines, text_box) is None,
    decreases lines.len(),
{
    if lines.len() > i {
        assert(lines[lines.len() - 1] == lines.last());
        lemma_last_line_taking(lines.drop_last(), text_box, i);
    } else if lines.len() > 0 {
        assert(lines.last() == lines[i - 1]);
    }
}

/// The line found for a box is one of the lines, and takes the box.
proof fn lemma_line_found(lines: Seq<Seq<TextBox>>, text_box: TextBox)
    ensures
        last_line_taking(lines, text_box) matches Some(i) ==> 0 <= i < lines.len() && line_takes(
            lines[i],
            text_box,
        ),
    decreases lines.len(),
{
    if lines.len() > 0 && !line_takes(lines.last(), text_box) {
        lemma_line_found(lines.drop_last(), text_box);
    }
}

/// Whether a box of `line` stands on one line with `text_box`.
fn takes_box(line: &Vec<TextBox>, text_box: &TextBox) -> (takes: bool)
    ensures
        takes == line_takes(line@, *text_box),
{
    for i in 0..line.len()
        invariant
            forall|j: int| 0 <= j < i ==> !on_same_line(#[trigger] line@[j], *text_box),
    {
        if same_line(&line[i], text_box) {
            return true;
        }
    }
    false
}

/// The boxes of `items` at the positions in `order`.
fn pick_boxes(items: &Vec<TextBox>, order: &Vec<usize>) -> (boxes: Vec<TextBox>)
    requires
        forall|i: int| 0 <= i < order@.len() ==> #[trigger] order@[i] < items@.len(),
    ensures
        boxes@ == order::picked(items@, order::positions(order@)),
{
    let mut boxes: Vec<TextBox> = Vec::new();
    for i in 0..order.len()
        invariant
            forall|i: int| 0 <= i < order@.len() ==> #[trigger] order@[i] < items@.len(),
            boxes@ == order::picked(items@, order::positions(order@)).take(i as int),
    {
        boxes.push(items[order[i]]);
    }
    boxes
}

/// Sorts a line from left to right.
fn sort_line(line: &Vec<TextBox>) -> (sorted: Vec<TextBox>)
    ensures
        sorted@ == left_to_right(line@),
{
    let mut keys: Vec<u64> = Vec::new();
    for i in 0..line.len()
        invariant
            keys@ == left_edges(line@).take(i as int),
    {
        keys.push(line[i].bounds.left as u64);
    }
    assert(keys@ == left_edges(line@));
    let order = order::sort_order(&keys);
    assert forall|i: int| 0 <= i < order@.len() implies #[trigger] order@[i] < line@.len() by {
        assert(order::positions(order@)[i] == order@[i]);
    }
    pick_boxes(line, &order)
}

/// Groups boxes into lines: each box joins the last line that holds a box on its line, or begins
/// a new one; in the end every line is sorted from left to right.
pub fn group_lines(boxes: Vec<TextBox>) -> (lines: Vec<Vec<TextBox>>)
    ensures
        lines_view(lines@) == grouped(boxes@),
{
    let mut lines: Vec<Vec<TextBox>> = Vec::new();
    for n in 0..boxes.len()
        invariant
            lines_view(lines@) == gathered(boxes@.take(n as int)),
    {
        assert(boxes@.take(n + 1).drop_last() == boxes@.take(n as int));
        let text_box = boxes[n];
        let ghost before = lines_view(lines@);
        let mut i: usize = lines.len();
        while i > 0 && !takes_box(&lines[i - 1], &text_box)
            invariant
                i <= lines@.len(),
                before == lines_view(lines@),
                forall|j: int| i <= j < before.len() ==> !line_takes(#[trigger] before[j], text_box),
            decreases i,
        {
            assert(before[i - 1] == lines@[i - 1]@);
            i -= 1;
        }
        proof {
            if i > 0 {
                assert(before[i - 1] == lines@[i - 1]@);
            }
            lemma_last_line_taking(before, text_box, i as int);
        }
        let ghost old_lines = lines@;
        if i > 0 {
            lines[i - 1].push(text_box);
            assert(lines_view(lines@) == before.update(i - 1, before[i - 1].push(text_box)));
        } else {
            let mut line: Vec<TextBox> = Vec::new();
            line.push(text_box);
            assert(line@ == seq![text_box]);
            lines.push(line);
            assert(lines_view(lines@) == before.push(seq![text_box]));
        }
    }
    assert(boxes@.take(boxes@.len() as int) == boxes@);
    let mut sorted: Vec<Vec<TextBox>> = Vec::new();
    for n in 0..lines.len()
        invariant
            lines_view(lines@) == gathered(boxes@),
            lines_view(sorted@) == grouped(boxes@).take(n as int),
    {
        let ghost before = sorted@;
        let line = sort_line(&lines[n]);
        assert(lines_view(lines@)[n as int] == lines@[n as int]@);
        sorted.push(line);
        assert(lines_view(sorted@) == lines_view(before).push(line@));
        assert(grouped(boxes@).take(n + 1) == grouped(boxes@).take(n as int).push(line@));
    }
    assert(grouped(boxes@).take(lines@.len() as int) == grouped(boxes@));
    sorted
}

/// Whether the gap between two neighbours is over three quarters of the greater height.
pub open spec fn gap_separates(first: TextBox, second: TextBox) -> bool {
    let gap = arith::excess(second.bounds.left as int, first.bounds.right as int);
    let height = arith::greater(first.bounds.rows(), second.bounds.rows());
    arith::capped(gap * 4) > arith::capped(height * 3)
}

/// The first box of `line` where a wide gap parts it from the second one.
pub fn separated_prefix(line: &[TextBox]) -> (prefix: Option<TextBox>)
    ensures
        prefix == (if line@.len() >= 2 && gap_separates(line@[0], line@[1]) {
            Some(line@[0])
        } else {
            None
        }),
{
    if line.len() < 2 {
        return None;
    }
    let first = line[0];
    let second = line[1];
    let gap: u32 = second.bounds.left.saturating_sub(first.bounds.right);
    let first_height: u32 = first.bounds.height();
    let second_height: u32 = second.bounds.height();
    let height: u32 = if first_height > second_height {
        first_height
    } else {
        second_height
    };
    if arith::capped_product(gap, 4) > arith::capped_product(height, 3) {
        Some(first)
    } else {
        None
    }
}

/// The place of a box in reading order: by top edge, then by left edge.
pub open spec fn reading_key(text_box: TextBox) -> u64 {
    (text_box.bounds.top * 0x1_0000_0000 + text_box.bounds.left) as u64
}

/// The places of `boxes` in reading order.
pub open spec fn reading_keys(boxes: Seq<TextBox>) -> Seq<u64> {
    boxes.map_values(|text_box: TextBox| reading_key(text_box))
}

/// `boxes` by top edge, then by left edge; boxes that agree in both keep their order.
pub open spec fn in_reading_order(boxes: Seq<TextBox>) -> Seq<TextBox> {
    order::picked(boxes, order::stable_order(reading_keys(boxes)))
}

/// Sorts boxes by top edge, then by left edge.
pub fn sort_boxes(boxes: &mut Vec<TextBox>)
    ensures
        final(boxes)@ == in_reading_order(old(boxes)@),
{
    let mut keys: Vec<u64> = Vec::new();
    for i in 0..boxes.len()
        invariant
            keys@ == reading_keys(boxes@).take(i as int),
    {
        let bounds = boxes[i].bounds;
        keys.push(bounds.top as u64 * 0x1_0000_0000 + bounds.left as u64);
    }
    assert(keys@ == reading_keys(boxes@));
    let order = order::sort_order(&keys);
    assert forall|i: int| 0 <= i < order@.len() implies #[trigger] order@[i] < boxes@.len() by {
        assert(order::positions(order@)[i] == order@[i]);
    }
    *boxes = pick_boxes(boxes, &order);
}

/// The boxes of all lines together.
pub open spec fn all_boxes(lines: Seq<Seq<TextBox>>) -> Multiset<TextBox>
    decreases lines.len(),
{
    if lines.len() == 0 {
        Multiset::empty()
    } else {
        all_boxes(lines.drop_last()).add(lines.last().to_multiset())
    }
}

proof fn lemma_all_boxes_update(lines: Seq<Seq<TextBox>>, i: int, text_box: TextBox)
    requires
        0 <= i < lines.len(),
    ensures
        all_boxes(lines.update(i, lines[i].push(text_box))) == all_boxes(lines).insert(text_box),
    decreases lines.len(),
{
    let after = lines.update(i, lines[i].push(text_box));
    if i == lines.len() - 1 {
        assert(after.drop_last() == lines.drop_last());
        lines[i].to_multiset_ensures();
    } else {
        assert(after.drop_last() == lines.drop_last().update(i, lines[i].push(text_box)));
        lemma_all_boxes_update(lines.drop_last(), i, text_box);
    }
    assert(all_boxes(after) =~= all_boxes(lines).insert(text_box));
}

proof fn lemma_gathered_keeps_boxes(boxes: Seq<TextBox>)
    ensures
        all_boxes(gathered(boxes)) == boxes.to_multiset(),
        forall|i: int| 0 <= i < gathered(boxes).len() ==> (#[trigger] gathered(boxes)[i]).len() > 0,
    decreases boxes.len(),
{
    if boxes.len() == 0 {
        boxes.to_multiset_ensures();
        assert(boxes.to_multiset() =~= Multiset::empty());
    } else {
        let fewer = boxes.drop_last();
        let last = boxes.last();
        lemma_gathered_keeps_boxes(fewer);
        let lines = gathered(fewer);
        lemma_line_found(lines, last);
        assert(boxes == fewer.push(last));
        fewer.to_multiset_ensures();
        match last_line_taking(lines, last) {
            Some(i) => {
                lemma_all_boxes_update(lines, i, last);
            },
            None => {
                assert(lines.push(seq![last]).drop_last() == lines);
                let none = Seq::<TextBox>::empty();
                assert(seq![last] == none.push(last));
                none.to_multiset_ensures();
                assert(none.to_multiset() =~= Multiset::empty());
                assert(all_boxes(gathered(boxes)) =~= all_boxes(lines).insert(last));
            },
        }
    }
}

proof fn lemma_all_boxes_sorted(lines: Seq<Seq<TextBox>>)
    ensures
        all_boxes(lines.map_values(|line: Seq<TextBox>| left_to_right(line))) == all_boxes(lines),
    decreases lines.len(),
{
    let sorted = lines.map_values(|line: Seq<TextBox>| left_to_right(line));
    if lines.len() > 0 {
        lemma_all_boxes_sorted(lines.drop_last());
        assert(sorted.drop_last() == lines.drop_last().map_values(
            |line: Seq<TextBox>| left_to_right(line),
        ));
        order::law_picked_same_items(lines.last(), left_edges(lines.last()));
    }
}

/// Grouping into lines loses no box and makes none up.
pub proof fn law_lines_keep_boxes(boxes: Seq<TextBox>)
    ensures
        all_boxes(grouped(boxes)) == boxes.to_multiset(),
{
    lemma_gathered_keeps_boxes(boxes);
    lemma_all_boxes_sorted(gathered(boxes));
}

/// Every line holds a box, and goes from left to right.
pub proof fn law_lines_left_to_right(boxes: Seq<TextBox>, n: int)
    requires
        0 <= n < grouped(boxes).len(),
    ensures
        grouped(boxes)[n].len() > 0,
        forall|i: int, j: int|
            0 <= i < j < grouped(boxes)[n].len() ==> (#[trigger] grouped(boxes)[n][i]).bounds.left
                <= (#[trigger] grouped(boxes)[n][j]).bounds.left,
{
    lemma_gathered_keeps_boxes(boxes);
    let line = gathered(boxes)[n];
    let keys = left_edges(line);
    order::law_stable_order(keys);
    let sorted = order::stable_order(keys);
    assert forall|i: int, j: int| 0 <= i < j < grouped(boxes)[n].len() implies (
    #[trigger] grouped(boxes)[n][i]).bounds.left <= (
    #[trigger] grouped(boxes)[n][j]).bounds.left by {
        assert(order::precedes(keys, sorted[i], sorted[j]));
    }
}

/// Standing on one line does not depend on which of the boxes comes first.
pub proof fn law_same_line_symmetric(left: TextBox, right: TextBox)
    ensures
        on_same_line(left, right) == on_same_line(right, left),
{
}

/// A box that stands on one line with an earlier box never begins a new line.
pub proof fn law_no_needless_line(boxes: Seq<TextBox>, n: int)
    requires
        0 <= n < boxes.len() - 1,
        on_same_line(boxes[n], boxes.last()),
    ensures
        gathered(boxes).len() == gathered(boxes.drop_last()).len(),
{
    let fewer = boxes.drop_last();
    let lines = gathered(fewer);
    lemma_box_has_line(fewer, n);
    let i = choose|i: int| 0 <= i < lines.len() && (#[trigger] lines[i]).contains(fewer[n]);
    let k = choose|k: int| 0 <= k < lines[i].len() && lines[i][k] == fewer[n];
    assert(on_same_line(lines[i][k], boxes.last()));
    assert(line_takes(lines[i], boxes.last()));
    lemma_some_line_takes(lines, boxes.last(), i);
    lemma_line_found(lines, boxes.last());
}

proof fn lemma_some_line_takes(lines: Seq<Seq<TextBox>>, text_box: TextBox, i: int)
    requires
        0 <= i < lines.len(),
        line_takes(lines[i], text_box),
    ensures
        last_line_taking(lines, text_box) is Some,
    decreases lines.len(),
{
    if !line_takes(lines.last(), text_box) {
        lemma_some_line_takes(lines.drop_last(), text_box, i);
    }
}

proof fn lemma_box_has_line(boxes: Seq<TextBox>, n: int)
    requires
        0 <= n < boxes.len(),
    ensures
        exists|i: int|
            0 <= i < gathered(boxes).len() && (#[trigger] gathered(boxes)[i]).contains(boxes[n]),
    decreases boxes.len(),
{
    let fewer = boxes.drop_last();
    let lines = gathered(fewer);
    let after = gathered(boxes);
    lemma_line_found(lines, boxes.last());
    if n < fewer.len() {
        lemma_box_has_line(fewer, n);
        let i = choose|i: int| 0 <= i < lines.len() && (#[trigger] lines[i]).contains(fewer[n]);
        let k = choose|k: int| 0 <= k < lines[i].len() && lines[i][k] == fewer[n];
        assert(after[i][k] == fewer[n]);
        assert(after[i].contains(boxes[n]));
    } else {
        match last_line_taking(lines, boxes.last()) {
            Some(i) => {
                assert(after[i][lines[i].len() as int] == boxes[n]);
                assert(after[i].contains(boxes[n]));
            },
            None => {
                assert(after[lines.len() as int][0] == boxes[n]);
                assert(after[lines.len() as int].contains(boxes[n]));
            },
        }
    }
}

/// Boxes in reading order go from top to bottom, and from left to right where their tops agree.
pub proof fn law_reading_order(boxes: Seq<TextBox>, i: int, j: int)
    requires
        0 <= i < j < boxes.len(),
    ensures
        in_reading_order(boxes).to_multiset() == boxes.to_multiset(),
        in_reading_order(boxes)[i].bounds.top <= in_reading_order(boxes)[j].bounds.top,
        in_reading_order(boxes)[i].bounds.top == in_reading_order(boxes)[j].bounds.top ==>
            in_reading_order(boxes)[i].bounds.left <= in_reading_order(boxes)[j].bounds.left,
{
    let keys = reading_keys(boxes);
    order::law_picked_same_items(boxes, keys);
    order::law_stable_order(keys);
    let sorted = order::stable_order(keys);
    assert(order::precedes(keys, sorted[i], sorted[j]));
}

/// The least multiple of `multiple` that is not below `value`.
pub open spec fn rounded_up(value: int, multiple: int) -> int {
    arith::parts_needed(value, multiple) * multiple
}

/// Rounds up to a multiple.
pub fn round_up(value: u32, multiple: u32) -> (rounded: u32)
    requires
        multiple > 0,
        rounded_up(value as int, multiple as int) <= u32::MAX,
    ensures
        rounded == rounded_up(value as int, multiple as int),
{
    let parts: u64 = arith::count_parts(value as u64, multiple as u64);
    parts as u32 * multiple
}

/// Rounding up gives a multiple that is not below the value, and by less than one multiple above.
pub proof fn law_round_up(value: int, multiple: int)
    requires
        multiple > 0,
    ensures
        rounded_up(value, multiple) % multiple == 0,
        value <= rounded_up(value, multiple) < value + multiple,
{
    arith::lemma_parts_needed(value, multiple);
    let parts = arith::parts_needed(value, multiple);
    lemma_mod_multiples_basic(parts, multiple);
    assert((parts - 1) * multiple == parts * multiple - multiple) by (nonlinear_arith);
}

/// An image as input of the detection network.
pub struct DetectionInput {
    /// The samples by channel (blue, green, red), row and column; nothing stands to the right of
    /// the image and below it.
    pub tensor: Vec<Option<u8>>,
    /// The width of the scaled image.
    pub resized_width: u32,
    /// The height of the scaled image.
    pub resized_height: u32,
    /// The number of columns.
    pub padded_width: u32,
    /// The number of rows.
    pub padded_height: u32,
    /// The width of the image.
    pub original_width: u32,
    /// The height of the image.
    pub original_height: u32,
}

/// How places in the network's output relate to places in the image.
#[derive(Debug, Clone, Copy, PartialEq, Eq, Structural)]
pub struct Geometry {
    /// The width of the output.
    pub output_width: usize,
    /// The height of the output.
    pub output_height: usize,
    /// The width of the scaled image.
    pub resized_width: u32,
    /// The height of the scaled image.
    pub resized_height: u32,
    /// The width of the input.
    pub padded_width: u32,
    /// The height of the input.
    pub padded_height: u32,
    /// The width of the image.
    pub original_width: u32,
    /// The height of the image.
    pub original_height: u32,
}

impl DetectionInput {
    /// How places in an output of the same size as the input relate to places in the image.
    pub fn geometry(&self) -> (geometry: Geometry)
        ensures
            geometry == (Geometry {
                output_width: self.padded_width as usize,
                output_height: self.padded_height as usize,
                resized_width: self.resized_width,
                resized_height: self.resized_height,
                padded_width: self.padded_width,
                padded_height: self.padded_height,
                original_width: self.original_width,
                original_height: self.original_height,
            }),
    {
        Geometry {
            output_width: self.padded_width as usize,
            output_height: self.padded_height as usize,
            resized_width: self.resized_width,
            resized_height: self.resized_height,
            padded_width: self.padded_width,
            padded_height: self.padded_height,
            original_width: self.original_width,
            original_height: self.original_height,
        }
    }
}

/// Whether `input` holds an image that was scaled to `width` by `height` pixels, where `rgb` is
/// the scaled content; an image that has this size already is taken as it is.
pub open spec fn is_input(
    input: DetectionInput,
    image: image::DynamicImage,
    width: u32,
    height: u32,
    rgb: Seq<u8>,
) -> bool {
    &&& rgb.len() == width * height * 3
    &&& picture::image_size(image) == (width, height) ==> rgb == picture::rgb_bytes(image)
    &&& (input.resized_width, input.resized_height) == (width, height)
    &&& input.padded_width == rounded_up(width as int, STRIDE as int)
    &&& input.padded_height == rounded_up(height as int, STRIDE as int)
    &&& (input.original_width, input.original_height) == picture::image_size(image)
    &&& input.tensor@ == picture::planar(
        rgb,
        width as int,
        height as int,
        input.padded_width as int,
        input.padded_height as int,
    )
}

/// Whether `input` holds `image`, scaled to `width` by `height` pixels.
pub open spec fn is_prepared(
    input: DetectionInput,
    image: image::DynamicImage,
    width: u32,
    height: u32,
) -> bool {
    exists|resized: image::DynamicImage| #[trigger]
        picture::scales_to(image, width, height, resized) && is_input(
            input,
            image,
            width,
            height,
            picture::rgb_bytes(resized),
        )
}

/// A side of a scaled image: at least one pixel, and at most as many as the network is given.
pub open spec fn scaled_side(side: u32) -> u32 {
    arith::lesser(arith::greater(side as int, 1), MAX_SIDE as int) as u32
}

/// The size that an image is scaled to: its own where no side is too long, else the size asked for,
/// as far as the network is given it.
pub open spec fn target_size(image: image::DynamicImage, width: u32, height: u32) -> (u32, u32) {
    let size = picture::image_size(image);
    if size.0 <= MAX_SIDE && size.1 <= MAX_SIDE {
        size
    } else {
        (scaled_side(width), scaled_side(height))
    }
}

/// A side of a scaled image.
fn scale_side(side: u32) -> (scaled: u32)
    ensures
        scaled == scaled_side(side),
{
    if side < 1 {
        1
    } else if side > MAX_SIDE {
        MAX_SIDE
    } else {
        side
    }
}

/// Lays an image out for the detection network; one with a side that is too long is scaled to
/// `wanted_width` by `wanted_height` pixels, any other keeps its size.
pub fn prepare(image: &image::DynamicImage, wanted_width: u32, wanted_height: u32) -> (input: Result<
    DetectionInput,
    OcrError,
>)
    ensures
        !recognition::has_pixels(*image) ==> (input matches Err(error)
            && recognition::is_dimension_error(error)),
        recognition::has_pixels(*image) ==> (input matches Ok(prepared) && is_prepared(
            prepared,
            *image,
            target_size(*image, wanted_width, wanted_height).0,
            target_size(*image, wanted_width, wanted_height).1,
        )),
{
    let (original_width, original_height) = picture::dimensions(image);
    if original_width == 0 || original_height == 0 {
        return Err(OcrError::Image(recognition::dimension_limit()));
    }
    let (width, height) = if original_width <= MAX_SIDE && original_height <= MAX_SIDE {
        (original_width, original_height)
    } else {
        (scale_side(wanted_width), scale_side(wanted_height))
    };
    proof {
        law_round_up(width as int, STRIDE as int);
        law_round_up(height as int, STRIDE as int);
    }
    let padded_width: u32 = round_up(width, STRIDE);
    let padded_height: u32 = round_up(height, STRIDE);
    assert(0 <= padded_width * padded_height <= 992 * 992) by (nonlinear_arith)
        requires
            0 <= padded_width <= 992,
            0 <= padded_height <= 992,
    ;
    let resized = picture::resize_exact(image, width, height);
    let rgb = picture::to_rgb8(&resized);
    let tensor = picture::planar_bgr(rgb.as_slice(), width, height, padded_width, padded_height);
    let prepared = DetectionInput {
        tensor,
        resized_width: width,
        resized_height: height,
        padded_width,
        padded_height,
        original_width,
        original_height,
    };
    assert(is_input(prepared, *image, width, height, picture::rgb_bytes(resized)));
    Ok(prepared)
}

/// An image with no side too long keeps its size, so that it is never enlarged; every other comes
/// out with sides that the network can be given.
pub proof fn law_small_image_keeps_its_size(image: image::DynamicImage, width: u32, height: u32)
    requires
        recognition::has_pixels(image),
    ensures
        picture::image_size(image).0 <= MAX_SIDE && picture::image_size(image).1 <= MAX_SIDE ==>
            target_size(image, width, height) == picture::image_size(image),
        1 <= target_size(image, width, height).0 <= MAX_SIDE,
        1 <= target_size(image, width, height).1 <= MAX_SIDE,
{
}

/// The end of a range that begins at `start`: at least one place further, but within `size`.
pub open spec fn range_end(start: u32, end: u32, size: u32) -> u32 {
    arith::lesser(
        arith::greater(end as int, arith::capped(start + 1)),
        size as int,
    ) as u32
}

/// The end of a range that begins at `start`.
fn end_range(start: u32, end: u32, size: u32) -> (bounded: u32)
    ensures
        bounded == range_end(start, end, size),
{
    let least: u32 = arith::capped_sum(start, 1);
    let wide: u32 = if end > least {
        end
    } else {
        least
    };
    if wide < size {
        wide
    } else {
        size
    }
}

/// A text box with the given corners, whose rounded coordinates span `spanned`, in an image of
/// `width` by `height` pixels.
pub fn text_box(points: [Corner; 4], spanned: Rect, width: u32, height: u32) -> (text_box: TextBox)
    ensures
        text_box.points == points,
        text_box.bounds == (Rect {
            left: spanned.left,
            right: range_end(spanned.left, spanned.right, width),
            top: spanned.top,
            bottom: range_end(spanned.top, spanned.bottom, height),
        }),
{
    TextBox {
        points,
        bounds: Rect {
            left: spanned.left,
            right: end_range(spanned.left, spanned.right, width),
            top: spanned.top,
            bottom: end_range(spanned.top, spanned.bottom, height),
        },
    }
}

/// A range that begins within the image is not empty and ends within the image.
pub proof fn law_range_within_image(start: u32, end: u32, size: u32)
    requires
        start < size,
    ensures
        start < range_end(start, end, size) <= size,
{
}

/// The rows that a rectangle covers.
pub open spec fn rows_of(bounds: Rect) -> Set<int> {
    Set::new(|y: int| bounds.top <= y < bounds.bottom)
}

proof fn lemma_rows_between(from: int, to: int)
    ensures
        Set::new(|y: int| from <= y < to).finite(),
        Set::new(|y: int| from <= y < to).len() == (if from < to {
            to - from
        } else {
            0
        }),
    decreases to - from,
{
    let rows = Set::new(|y: int| from <= y < to);
    if from < to {
        lemma_rows_between(from, to - 1);
        let fewer = Set::new(|y: int| from <= y < to - 1);
        assert(rows =~= fewer.insert(to - 1));
    } else {
        assert(rows =~= Set::<int>::empty());
    }
}

/// Two boxes stand on one line exactly if the rows that both cover are at least half of the rows of
/// one of them, which is as much as half of the rows of the lower one.
pub proof fn law_half_of_the_lower_box_is_shared(left: TextBox, right: TextBox)
    ensures
        rows_of(left.bounds).finite() && rows_of(right.bounds).finite(),
        on_same_line(left, right) <==> {
            let shared = rows_of(left.bounds).intersect(rows_of(right.bounds)).len();
            ||| 2 * shared >= rows_of(left.bounds).len()
            ||| 2 * shared >= rows_of(right.bounds).len()
        },
{
    let (a, b) = (left.bounds, right.bounds);
    let top = if a.top > b.top {
        a.top as int
    } else {
        b.top as int
    };
    let bottom = if a.bottom < b.bottom {
        a.bottom as int
    } else {
        b.bottom as int
    };
    lemma_rows_between(a.top as int, a.bottom as int);
    lemma_rows_between(b.top as int, b.bottom as int);
    lemma_rows_between(top, bottom);
    assert(rows_of(a).intersect(rows_of(b)) =~= Set::new(|y: int| top <= y < bottom));
    assert(rows_of(a) =~= Set::new(|y: int| a.top as int <= y < a.bottom as int));
    assert(rows_of(b) =~= Set::new(|y: int| b.top as int <= y < b.bottom as int));
}

/// A box whose rows all lie within the rows of another box stands on one line with it, however low
/// it is; boxes that share no row do not, unless one of them has no rows at all.
pub proof fn law_box_within_the_rows_of_another(inner: TextBox, outer: TextBox)
    ensures
        outer.bounds.top <= inner.bounds.top && inner.bounds.bottom <= outer.bounds.bottom
            ==> on_same_line(inner, outer) && on_same_line(outer, inner),
        inner.bounds.top < inner.bounds.bottom <= outer.bounds.top < outer.bounds.bottom
            ==> !on_same_line(inner, outer) && !on_same_line(outer, inner),
{
}

/// A further box joins the last line that holds a box on one line with it, behind the boxes that
/// line has, and begins a new line, below all others, only where no line holds one. No other line
/// changes.
pub proof fn law_box_joins_the_last_line_that_takes_it(
    boxes: Seq<TextBox>,
    text_box: TextBox,
    n: int,
    k: int,
)
    ensures
        gathered(Seq::empty()) == Seq::<Seq<TextBox>>::empty(),
        ({
            let lines = gathered(boxes);
            let after = gathered(boxes.push(text_box));
            &&& 0 <= n < lines.len() && 0 <= k < lines[n].len() && on_same_line(
                lines[n][k],
                text_box,
            ) && (forall|m: int, i: int|
                n < m < lines.len() && 0 <= i < lines[m].len() ==> !on_same_line(
                    #[trigger] lines[m][i],
                    text_box,
                )) ==> after == lines.update(n, lines[n].push(text_box))
            &&& (forall|m: int, i: int|
                0 <= m < lines.len() && 0 <= i < lines[m].len() ==> !on_same_line(
                    #[trigger] lines[m][i],
                    text_box,
                )) ==> after == lines.push(seq![text_box])
        }),
{
    let lines = gathered(boxes);
    assert(boxes.push(text_box).drop_last() == boxes);
    if 0 <= n < lines.len() && 0 <= k < lines[n].len() && on_same_line(lines[n][k], text_box) && (
    forall|m: int, i: int|
        n < m < lines.len() && 0 <= i < lines[m].len() ==> !on_same_line(
            #[trigger] lines[m][i],
            text_box,
        )) {
        assert(line_takes(lines[n], text_box));
        assert forall|j: int| n + 1 <= j < lines.len() implies !line_takes(
            #[trigger] lines[j],
            text_box,
        ) by {}
        lemma_last_line_taking(lines, text_box, n + 1);
    }
    if forall|m: int, i: int|
        0 <= m < lines.len() && 0 <= i < lines[m].len() ==> !on_same_line(
            #[trigger] lines[m][i],
            text_box,
        ) {
        assert forall|j: int| 0 <= j < lines.len() implies !line_takes(
            #[trigger] lines[j],
            text_box,
        ) by {}
        lemma_last_line_taking(lines, text_box, 0);
    }
}

/// What is read are the lines as they were gathered, in the same order, each with its own boxes put
/// from left to right, where boxes with the same left edge keep their order.
pub proof fn law_lines_are_sorted_one_by_one(boxes: Seq<TextBox>, n: int) -> (places: Seq<int>)
    requires
        0 <= n < grouped(boxes).len(),
    ensures
        grouped(boxes).len() == gathered(boxes).len(),
        places.len() == gathered(boxes)[n].len(),
        grouped(boxes)[n].len() == places.len(),
        forall|i: int|
            0 <= i < places.len() ==> 0 <= #[trigger] places[i] < places.len()
                && grouped(boxes)[n][i] == gathered(boxes)[n][places[i]],
        forall|i: int| 0 <= i < places.len() ==> #[trigger] places.contains(i),
        forall|i: int, j: int|
            0 <= i < j < places.len() ==> {
                let a = gathered(boxes)[n][#[trigger] places[i]];
                let b = gathered(boxes)[n][#[trigger] places[j]];
                a.bounds.left < b.bounds.left || a.bounds.left == b.bounds.left && places[i]
                    < places[j]
            },
{
    let line = gathered(boxes)[n];
    let keys = left_edges(line);
    order::law_stable_order(keys);
    let places = order::stable_order(keys);
    assert forall|i: int, j: int| 0 <= i < j < places.len() implies {
        let a = gathered(boxes)[n][#[trigger] places[i]];
        let b = gathered(boxes)[n][#[trigger] places[j]];
        a.bounds.left < b.bounds.left || a.bounds.left == b.bounds.left && places[i] < places[j]
    } by {
        assert(order::precedes(keys, places[i], places[j]));
    }
    places
}

/// A box that begins a line stands apart from the second one exactly if more than three quarters of
/// the height of either box lie between the two; boxes so high that this does not fit in 32 bits are
/// never parted.
pub proof fn law_wide_gap_separates(first: TextBox, second: TextBox)
    requires
        first.bounds.top <= first.bounds.bottom,
        second.bounds.top <= second.bounds.bottom,
    ensures
        gap_separates(first, second) <==> {
            let gap = second.bounds.left - first.bounds.right;
            &&& gap > 0
            &&& 4 * gap > 3 * (first.bounds.bottom - first.bounds.top)
            &&& 4 * gap > 3 * (second.bounds.bottom - second.bounds.top)
            &&& 3 * (first.bounds.bottom - first.bounds.top) < u32::MAX
            &&& 3 * (second.bounds.bottom - second.bounds.top) < u32::MAX
        },
{
}

/// In reading order, of two boxes the one with the upper top edge comes first; where both edges are
/// level the one further left does, and where that is level too the one that came first before.
pub proof fn law_reading_order_is_stable(boxes: Seq<TextBox>, i: int, j: int) -> (places: Seq<int>)
    requires
        0 <= i < j < boxes.len(),
    ensures
        places.len() == boxes.len(),
        in_reading_order(boxes).len() == boxes.len(),
        0 <= places[i] < boxes.len() && 0 <= places[j] < boxes.len(),
        in_reading_order(boxes)[i] == boxes[places[i]],
        in_reading_order(boxes)[j] == boxes[places[j]],
        ({
            let (a, b) = (boxes[places[i]].bounds, boxes[places[j]].bounds);
            ||| a.top < b.top
            ||| a.top == b.top && a.left < b.left
            ||| a.top == b.top && a.left == b.left && places[i] < places[j]
        }),
{
    let keys = reading_keys(boxes);
    order::law_stable_order(keys);
    let places = order::stable_order(keys);
    assert(order::precedes(keys, places[i], places[j]));
    places
}

/// An image with a side over 960 pixels is scaled to exactly the size that is asked for, where the
/// network can be given it; a side that is too long or that has no pixel is brought to the nearest
/// length that the network can be given. Neither side depends on the other.
pub proof fn law_large_image_gets_the_size_asked_for(
    image: image::DynamicImage,
    width: u32,
    height: u32,
)
    requires
        picture::image_size(image).0 > 960 || picture::image_size(image).1 > 960,
    ensures
        1 <= width <= 960 && 1 <= height <= 960 ==> target_size(image, width, height) == (
            width,
            height,
        ),
        1 <= width <= 960 ==> target_size(image, width, height).0 == width,
        1 <= height <= 960 ==> target_size(image, width, height).1 == height,
        width > 960 ==> target_size(image, width, height).0 == 960,
        height > 960 ==> target_size(image, width, height).1 == 960,
        width == 0 ==> target_size(image, width, height).0 == 1,
        height == 0 ==> target_size(image, width, height).1 == 1,
{
}

/// An image with no side over 960 pixels is given to the network in its own size, whatever size is
/// asked for.
pub proof fn law_image_up_to_960_is_not_scaled(image: image::DynamicImage, width: u32, height: u32)
    requires
        picture::image_size(image).0 <= 960,
        picture::image_size(image).1 <= 960,
    ensures
        target_size(image, width, height) == picture::image_size(image),
{
}

/// A prepared image has the size it was scaled to and sides that were lengthened to the next
/// multiple of 32; at every place it holds the blue, the green or the red byte of the scaled image's
/// pixel at that place, and nothing beyond the image.
pub proof fn law_prepared_image_holds_the_image(
    input: DetectionInput,
    image: image::DynamicImage,
    width: u32,
    height: u32,
    rgb: Seq<u8>,
    channel: int,
    x: int,
    y: int,
)
    requires
        is_input(input, image, width, height, rgb),
        0 <= channel < 3,
        0 <= x < input.padded_width,
        0 <= y < input.padded_height,
    ensures
        input.resized_width == width && input.resized_height == height,
        (input.original_width, input.original_height) == picture::image_size(image),
        input.padded_width % 32 == 0 && width <= input.padded_width < width + 32,
        input.padded_height % 32 == 0 && height <= input.padded_height < height + 32,
        ({
            let plane = input.padded_width * input.padded_height;
            let at = channel * plane + y * input.padded_width + x;
            let pixel = (y * width + x) * 3;
            &&& input.tensor@.len() == 3 * plane
            &&& 0 <= at < input.tensor@.len()
            &&& x < width && y < height && channel == 0 ==> input.tensor@[at] == Some(rgb[pixel + 2])
            &&& x < width && y < height && channel == 1 ==> input.tensor@[at] == Some(rgb[pixel + 1])
            &&& x < width && y < height && channel == 2 ==> input.tensor@[at] == Some(rgb[pixel])
            &&& x >= width || y >= height ==> input.tensor@[at] == None::<u8>
        }),
{
    law_round_up(width as int, 32);
    law_round_up(height as int, 32);
    picture::law_channels_are_blue_green_red(
        rgb,
        width as int,
        height as int,
        input.padded_width as int,
        input.padded_height as int,
        channel,
        x,
        y,
    );
}

/// A prepared image holds what came of scaling the image to the size in question, with three bytes
/// per pixel; where that is the size it has, nothing but the image itself.
pub proof fn law_prepared_image_was_scaled(
    input: DetectionInput,
    image: image::DynamicImage,
    width: u32,
    height: u32,
) -> (resized: image::DynamicImage)
    requires
        is_prepared(input, image, width, height),
    ensures
        picture::scales_to(image, width, height, resized),
        is_input(input, image, width, height, picture::rgb_bytes(resized)),
        picture::rgb_bytes(resized).len() == width * height * 3,
        picture::image_size(image) == (width, height) ==> picture::rgb_bytes(resized)
            == picture::rgb_bytes(image),
{
    choose|resized: image::DynamicImage| #[trigger]
        picture::scales_to(image, width, height, resized) && is_input(
            input,
            image,
            width,
            height,
            picture::rgb_bytes(resized),
        )
}

/// A range keeps its end where that lies behind its start and within the image; it is lengthened to
/// one place where it is shorter, and ends with the image where it goes further.
pub proof fn law_range_keeps_its_end(start: u32, end: u32, size: u32)
    requires
        start < u32::MAX,
    ensures
        start < end <= size ==> range_end(start, end, size) == end,
        end <= start < size ==> range_end(start, end, size) == start + 1,
        end >= size && start < end ==> range_end(start, end, size) == size,
{
}

/// The view of some lines has the boxes of each line in its place, in their order.
pub proof fn law_view_keeps_lines(lines: Seq<Vec<TextBox>>, n: int)
    requires
        0 <= n < lines.len(),
    ensures
        lines_view(lines).len() == lines.len(),
        lines_view(lines)[n] == lines[n]@,
{
}

/// A rectangle has as many rows as lie between its edges.
pub proof fn law_rows_lie_between_the_edges(bounds: Rect)
    ensures
        bounds.top <= bounds.bottom ==> bounds.top + bounds.rows() == bounds.bottom,
        bounds.bottom < bounds.top ==> bounds.rows() == 0,
{
}

} // verus!
