//! Reading the lines of an image one after the other.
use crate::ocr;
use crate::ocr::detection;
use crate::ocr::detection::TextBox;
use crate::text;
use vstd::prelude::*;

verus! {

/// The lines of an image, and how far they have been read.
#[derive(Debug)]
pub struct Reading {
    /// The boxes of each line, from left to right.
    pub lines: Vec<Vec<TextBox>>,
    /// The number of lines that have been read.
    pub at: usize,
    /// The text of the prefix that stands apart on the current line, once it has been read.
    pub prefix: Option<String>,
    /// The texts of the lines so far, but for those without text.
    pub texts: Vec<String>,
}

/// What has to be read next.
#[derive(Debug)]
pub enum Want {
    /// A box at the start of the current line that stands apart.
    Prefix(TextBox),
    /// The current line.
    Line,
    /// The whole image, because no line has any text.
    Whole,
    /// Nothing any more.
    Nothing,
}

/// How far the lines have been read.
pub struct ReadingView {
    /// The boxes of each line.
    pub lines: Seq<Seq<TextBox>>,
    /// The number of lines that have been read.
    pub at: int,
    /// The text of the prefix on the current line.
    pub prefix: Option<Seq<char>>,
    /// The texts of the lines so far.
    pub texts: Seq<Seq<char>>,
}

/// The box that stands apart at the start of a line.
pub open spec fn prefix_box(line: Seq<TextBox>) -> Option<TextBox> {
    if line.len() >= 2 && detection::gap_separates(line[0], line[1]) {
        Some(line[0])
    } else {
        None
    }
}

/// The text of a line, with the gap behind its prefix put back.
pub open spec fn line_text(read: Seq<char>, prefix: Option<Seq<char>>) -> Seq<char> {
    match prefix {
        Some(prefix) => ocr::gapped(read, prefix),
        None => read,
    }
}

/// `texts` with one more, unless it is empty.
pub open spec fn with_text(texts: Seq<Seq<char>>, line: Seq<char>) -> Seq<Seq<char>> {
    if line.len() == 0 {
        texts
    } else {
        texts.push(line)
    }
}

impl ReadingView {
    /// What has to be read next.
    pub open spec fn wanted(self) -> Want {
        if self.at < self.lines.len() {
            match prefix_box(self.lines[self.at]) {
                Some(text_box) if self.prefix is None => Want::Prefix(text_box),
                _ => Want::Line,
            }
        } else if self.texts.len() == 0 {
            Want::Whole
        } else {
            Want::Nothing
        }
    }

    /// How far the lines have been read once `read` was read.
    pub open spec fn after(self, read: Seq<char>) -> ReadingView {
        match self.wanted() {
            Want::Prefix(_) => ReadingView { prefix: Some(read), ..self },
            Want::Line => ReadingView {
                at: self.at + 1,
                prefix: None,
                texts: with_text(self.texts, line_text(read, self.prefix)),
                ..self
            },
            Want::Whole => ReadingView { texts: self.texts.push(read), ..self },
            Want::Nothing => self,
        }
    }
}

impl View for Reading {
    type V = ReadingView;

    open spec fn view(&self) -> ReadingView {
        ReadingView {
            lines: detection::lines_view(self.lines@),
            at: self.at as int,
            prefix: text::optional_view(self.prefix),
            texts: text::texts_view(self.texts@),
        }
    }
}

/// Before anything of some boxes has been read.
pub open spec fn unread(boxes: Seq<TextBox>) -> ReadingView {
    ReadingView {
        lines: detection::grouped(boxes),
        at: 0,
        prefix: None,
        texts: Seq::empty(),
    }
}

impl Reading {
    /// Whether no more lines have been read than there are.
    pub open spec fn wf(self) -> bool {
        self.at <= self.lines@.len()
    }

    /// Groups boxes into lines, of which nothing has been read.
    pub fn new(boxes: Vec<TextBox>) -> (reading: Reading)
        ensures
            reading.wf(),
            reading@ == unread(boxes@),
    {
        let lines = detection::group_lines(boxes);
        let reading = Reading { lines, at: 0, prefix: None, texts: Vec::new() };
        assert(reading@.texts =~= Seq::<Seq<char>>::empty());
        reading
    }

    /// What has to be read next.
    pub fn wanted(&self) -> (want: Want)
        requires
            self.wf(),
        ensures
            want == self@.wanted(),
    {
        if self.at < self.lines.len() {
            assert(self@.lines[self.at as int] == self.lines@[self.at as int]@);
            if self.prefix.is_none() {
                if let Some(text_box) = detection::separated_prefix(
                    self.lines[self.at].as_slice(),
                ) {
                    return Want::Prefix(text_box);
                }
            }
            Want::Line
        } else if self.texts.len() == 0 {
            Want::Whole
        } else {
            Want::Nothing
        }
    }

    /// The boxes of the current line.
    pub fn current_line(&self) -> (line: &Vec<TextBox>)
        requires
            self.at < self.lines@.len(),
        ensures
            line@ == self@.lines[self@.at],
    {
        &self.lines[self.at]
    }

    /// Takes the text of what had to be read.
    pub fn accept(&mut self, read: String)
        requires
            old(self).wf(),
        ensures
            final(self).wf(),
            final(self)@ == old(self)@.after(read@),
    {
        match self.wanted() {
            Want::Prefix(_) => {
                self.prefix = Some(read);
            },
            Want::Line => {
                let line = match &self.prefix {
                    Some(prefix) => ocr::preserve_gap(read, prefix.as_str()),
                    None => read,
                };
                let ghost before = self.texts@;
                let count: usize = self.lines.len();
                assert(self.at < count);
                if text::to_chars(line.as_str()).len() > 0 {
                    self.texts.push(line);
                    assert(text::texts_view(self.texts@) =~= text::texts_view(before).push(line@));
                }
                self.at = self.at + 1;
                self.prefix = None;
            },
            Want::Whole => {
                let ghost before = self.texts@;
                self.texts.push(read);
                assert(text::texts_view(self.texts@) =~= text::texts_view(before).push(read@));
            },
            Want::Nothing => {},
        }
    }

    /// The text of the image: its lines, one below the other.
    pub fn finish(&self) -> (shown: String)
        ensures
            shown@ == text::joined(self@.texts, "\n"@),
    {
        text::join(&self.texts, "\n")
    }
}

/// How far the lines have been read after one more line, where `prefix` and `read` are the texts
/// read from its prefix, if one stands apart, and from the whole line.
pub open spec fn after_line(reading: ReadingView, prefix: Seq<char>, read: Seq<char>) -> ReadingView {
    if prefix_box(reading.lines[reading.at]) is Some {
        reading.after(prefix).after(read)
    } else {
        reading.after(read)
    }
}

/// A line takes one reading, or two where a prefix stands apart, and adds its text, if it has any,
/// below the texts before it.
pub proof fn law_line_adds_its_text(reading: ReadingView, prefix: Seq<char>, read: Seq<char>)
    requires
        0 <= reading.at < reading.lines.len(),
        reading.prefix is None,
    ensures
        after_line(reading, prefix, read).at == reading.at + 1,
        after_line(reading, prefix, read).prefix is None,
        after_line(reading, prefix, read).lines == reading.lines,
        after_line(reading, prefix, read).texts == with_text(
            reading.texts,
            line_text(
                read,
                if prefix_box(reading.lines[reading.at]) is Some {
                    Some(prefix)
                } else {
                    None
                },
            ),
        ),
{
}

/// How far the lines have been read after the lines of `reads`, of each the texts read from its
/// prefix and from the whole line.
pub open spec fn after_lines(reading: ReadingView, reads: Seq<(Seq<char>, Seq<char>)>) -> ReadingView
    decreases reads.len(),
{
    if reads.len() == 0 {
        reading
    } else {
        after_line(after_lines(reading, reads.drop_last()), reads.last().0, reads.last().1)
    }
}

/// The texts of lines, but for those without text.
pub open spec fn line_texts(
    lines: Seq<Seq<TextBox>>,
    reads: Seq<(Seq<char>, Seq<char>)>,
) -> Seq<Seq<char>>
    decreases reads.len(),
{
    if reads.len() == 0 {
        Seq::empty()
    } else {
        let prefix = if prefix_box(lines[reads.len() - 1]) is Some {
            Some(reads.last().0)
        } else {
            None
        };
        with_text(line_texts(lines, reads.drop_last()), line_text(reads.last().1, prefix))
    }
}

/// Reading the lines that boxes form, one after the other, gives the texts of these lines in their
/// order; once all have been read nothing is left to do, but to read the whole image where no line
/// has any text.
pub proof fn law_all_lines_are_read(
    boxes: Seq<TextBox>,
    reads: Seq<(Seq<char>, Seq<char>)>,
    whole: Seq<char>,
)
    requires
        reads.len() <= detection::grouped(boxes).len(),
    ensures
        ({
            let lines = detection::grouped(boxes);
            let reading = after_lines(unread(boxes), reads);
            &&& reading.lines == lines
            &&& reading.at == reads.len()
            &&& reading.prefix is None
            &&& reading.texts == line_texts(lines, reads)
            &&& reads.len() == lines.len() && reading.texts.len() > 0 ==> reading.wanted() is Nothing
            &&& reads.len() == lines.len() && reading.texts.len() == 0 ==> {
                &&& reading.wanted() is Whole
                &&& reading.after(whole).wanted() is Nothing
                &&& reading.after(whole).texts == seq![whole]
            }
        }),
    decreases reads.len(),
{
    let reading = after_lines(unread(boxes), reads);
    if reads.len() > 0 {
        law_all_lines_are_read(boxes, reads.drop_last(), whole);
        law_line_adds_its_text(
            after_lines(unread(boxes), reads.drop_last()),
            reads.last().0,
            reads.last().1,
        );
    }
    if reading.texts.len() == 0 {
        assert(reading.texts.push(whole) =~= seq![whole]);
    }
}

/// The greatest number of readings that are still needed.
pub open spec fn readings_left(reading: ReadingView) -> int {
    2 * (reading.lines.len() - reading.at) - (if reading.prefix is Some {
        1int
    } else {
        0
    }) + (if reading.texts.len() == 0 {
        1int
    } else {
        0
    })
}

/// Every reading brings the end nearer, so that reading ends after at most two readings per line
/// and one of the whole image.
pub proof fn law_reading_ends(reading: ReadingView, read: Seq<char>)
    requires
        0 <= reading.at <= reading.lines.len(),
        reading.at == reading.lines.len() ==> reading.prefix is None,
        reading.wanted() !is Nothing,
    ensures
        0 <= readings_left(reading.after(read)) < readings_left(reading),
        reading.after(read).at <= reading.lines.len(),
        reading.after(read).at == reading.lines.len() ==> reading.after(read).prefix is None,
{
}

/// Where nothing has to be read any more, every line has been read and there is at least one text.
pub proof fn law_nothing_left_means_all_read(reading: ReadingView)
    requires
        0 <= reading.at <= reading.lines.len(),
        reading.wanted() is Nothing,
    ensures
        reading.at == reading.lines.len(),
        reading.texts.len() > 0,
{
}

/// While a line is left, it is read next, but for a first box that stands apart from the second one
/// and was not read yet; once all lines were read, the whole image is read where no line gave a text.
pub proof fn law_lines_are_read_in_order(reading: ReadingView)
    requires
        0 <= reading.at <= reading.lines.len(),
    ensures
        reading.at < reading.lines.len() ==> {
            let line = reading.lines[reading.at];
            let apart = line.len() >= 2 && detection::gap_separates(line[0], line[1]);
            &&& apart && reading.prefix is None ==> reading.wanted() == Want::Prefix(line[0])
            &&& !apart || reading.prefix is Some ==> reading.wanted() == Want::Line
        },
        reading.at == reading.lines.len() && reading.texts.len() == 0 ==> reading.wanted()
            == Want::Whole,
        reading.at == reading.lines.len() && reading.texts.len() > 0 ==> reading.wanted()
            == Want::Nothing,
{
}

/// A text that was read from a line comes below the texts before it, as it is where no prefix stands
/// apart and with the gap put back where one does; a line without text leaves nothing behind. What
/// was read from a prefix is only kept for its line.
pub proof fn law_text_comes_below_the_others(reading: ReadingView, read: Seq<char>)
    requires
        0 <= reading.at < reading.lines.len(),
    ensures
        reading.wanted() is Prefix ==> {
            &&& reading.after(read).texts == reading.texts
            &&& reading.after(read).at == reading.at
            &&& reading.after(read).prefix == Some(read)
        },
        reading.wanted() is Line ==> {
            &&& reading.after(read).at == reading.at + 1
            &&& reading.after(read).prefix is None
            &&& reading.prefix is None && read.len() > 0 ==> reading.after(read).texts
                == reading.texts.push(read)
            &&& reading.prefix is None && read.len() == 0 ==> reading.after(read).texts
                == reading.texts
            &&& reading.prefix matches Some(prefix) ==> {
                let line = ocr::gapped(read, prefix);
                &&& line.len() > 0 ==> reading.after(read).texts == reading.texts.push(line)
                &&& line.len() == 0 ==> reading.after(read).texts == reading.texts
            }
        },
        reading.after(read).lines == reading.lines,
{
}

/// Nothing has been read of the lines that boxes form, of which every box is in one.
pub proof fn law_reading_begins_with_the_first_line(boxes: Seq<TextBox>)
    ensures
        unread(boxes).at == 0,
        unread(boxes).texts.len() == 0,
        unread(boxes).prefix is None,
        unread(boxes).lines == detection::grouped(boxes),
        detection::all_boxes(unread(boxes).lines) == boxes.to_multiset(),
{
    detection::law_lines_keep_boxes(boxes);
}

/// The view of a reading has its lines, its texts and its prefix as they are.
pub proof fn law_view_keeps_the_reading(reading: Reading, i: int)
    ensures
        reading@.at == reading.at,
        reading@.lines.len() == reading.lines@.len(),
        reading@.texts.len() == reading.texts@.len(),
        0 <= i < reading.lines@.len() ==> reading@.lines[i] == reading.lines@[i]@,
        0 <= i < reading.texts@.len() ==> reading@.texts[i] == reading.texts@[i]@,
        reading.prefix matches Some(prefix) ==> reading@.prefix == Some(prefix@),
        reading.prefix is None ==> reading@.prefix is None,
{
}

} // verus!
