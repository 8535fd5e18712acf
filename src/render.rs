use std::collections::VecDeque;

use vstd::prelude::*;

use crate::glyph::{break_kind_of, white_space, BreakKind, GlyphSource, Raster, Unit};
use crate::layout::{Pixel, SizeConstraint};
use crate::text::{Direction, RichString, TextOptions, Wrapping, WORD_WRAP_LENGTH_THRESHOLD_PERCENT};

verus! {

/// The total width of a run of units.
pub open spec fn sum_widths<'a, F>(units: Seq<Unit<'a, F>>) -> int
    decreases units.len(),
{
    if units.len() == 0 {
        0
    } else {
        sum_widths(units.drop_last()) + units.last().width
    }
}

/// The height of a run of units: that of its tallest unit.
pub open spec fn max_height<'a, F>(units: Seq<Unit<'a, F>>) -> int
    decreases units.len(),
{
    if units.len() == 0 {
        0
    } else {
        let rest = max_height(units.drop_last());
        if rest >= units.last().height {
            rest
        } else {
            units.last().height as int
        }
    }
}

proof fn lemma_sum_widths_step<'a, F>(units: Seq<Unit<'a, F>>, i: int)
    requires
        0 <= i < units.len(),
    ensures
        sum_widths(units.take(i + 1)) == sum_widths(units.take(i)) + units[i].width,
{
    assert(units.take(i + 1).drop_last() =~= units.take(i));
}

proof fn lemma_sum_widths_prefix<'a, F>(units: Seq<Unit<'a, F>>, i: int)
    requires
        0 <= i <= units.len(),
    ensures
        0 <= sum_widths(units.take(i)) <= sum_widths(units),
    decreases units.len(),
{
    if i == units.len() {
        assert(units.take(i) =~= units);
        if units.len() > 0 {
            lemma_sum_widths_prefix(units.drop_last(), i - 1);
            assert(units.drop_last().take(i - 1) =~= units.drop_last());
        }
    } else {
        lemma_sum_widths_prefix(units.drop_last(), i);
        assert(units.drop_last().take(i) =~= units.take(i));
    }
}

proof fn lemma_max_height_push<'a, F>(units: Seq<Unit<'a, F>>, u: Unit<'a, F>)
    ensures
        max_height(units.push(u)) == if max_height(units) >= u.height {
            max_height(units)
        } else {
            u.height as int
        },
{
    assert(units.push(u).drop_last() =~= units);
}

/// The characters that a run of units shows: those of its visible units.
pub open spec fn shown<'a, F>(units: Seq<Unit<'a, F>>) -> Seq<char>
    decreases units.len(),
{
    if units.len() == 0 {
        Seq::empty()
    } else if units.last().whitespace() {
        shown(units.drop_last())
    } else {
        shown(units.drop_last()).push(units.last().ch)
    }
}

/// The characters of `chars` that are not whitespace.
pub open spec fn visible(chars: Seq<char>) -> Seq<char>
    decreases chars.len(),
{
    if chars.len() == 0 {
        Seq::empty()
    } else if white_space(chars.last()) {
        visible(chars.drop_last())
    } else {
        visible(chars.drop_last()).push(chars.last())
    }
}

proof fn lemma_shown_add<'a, F>(a: Seq<Unit<'a, F>>, b: Seq<Unit<'a, F>>)
    ensures
        shown(a + b) == shown(a) + shown(b),
    decreases b.len(),
{
    if b.len() == 0 {
        assert(a + b =~= a);
        assert(shown(a) + shown(b) =~= shown(a));
    } else {
        assert((a + b).drop_last() =~= a + b.drop_last());
        lemma_shown_add(a, b.drop_last());
        if b.last().whitespace() {
        } else {
            assert(shown(a) + shown(b.drop_last()).push(b.last().ch) =~= (shown(a) + shown(b.drop_last())).push(b.last().ch));
        }
    }
}

proof fn lemma_visible_add(a: Seq<char>, b: Seq<char>)
    ensures
        visible(a + b) == visible(a) + visible(b),
    decreases b.len(),
{
    if b.len() == 0 {
        assert(a + b =~= a);
        assert(visible(a) + visible(b) =~= visible(a));
    } else {
        assert((a + b).drop_last() =~= a + b.drop_last());
        lemma_visible_add(a, b.drop_last());
        if white_space(b.last()) {
        } else {
            assert(visible(a) + visible(b.drop_last()).push(b.last()) =~= (visible(a) + visible(b.drop_last())).push(b.last()));
        }
    }
}

proof fn lemma_shown_whitespace<'a, F>(units: Seq<Unit<'a, F>>)
    requires
        forall|j: int| 0 <= j < units.len() ==> (#[trigger] units[j]).whitespace(),
    ensures
        shown(units) == Seq::<char>::empty(),
    decreases units.len(),
{
    if units.len() > 0 {
        lemma_shown_whitespace(units.drop_last());
    }
}

/// Dropping whitespace from the end of a run keeps what it shows.
proof fn lemma_shown_prefix<'a, F>(units: Seq<Unit<'a, F>>, k: int)
    requires
        0 <= k <= units.len(),
        forall|j: int| k <= j < units.len() ==> (#[trigger] units[j]).whitespace(),
    ensures
        shown(units.take(k)) == shown(units),
{
    assert(units =~= units.take(k) + units.skip(k));
    lemma_shown_add(units.take(k), units.skip(k));
    lemma_shown_whitespace(units.skip(k));
    assert(shown(units.take(k)) + Seq::<char>::empty() =~= shown(units.take(k)));
}

/// An ordered run of units with its total width kept alongside.
pub struct TextLine<'a, F> {
    contents: Vec<Unit<'a, F>>,
    width: Pixel,
}

impl<'a, F: GlyphSource> TextLine<'a, F> {
    /// The units of the line, left to right.
    pub closed spec fn units(&self) -> Seq<Unit<'a, F>> {
        self.contents@
    }

    /// The width the line keeps alongside its units.
    pub closed spec fn total_width(&self) -> int {
        self.width as int
    }

    /// The kept width is the sum of the units' widths.
    pub closed spec fn wf(&self) -> bool {
        self.width as int == sum_widths(self.contents@)
    }

    /// A well-formed line's width is the sum of the widths of the units it
    /// holds, whatever pushes and pops made it.
    pub proof fn lemma_width_is_sum(&self)
        requires
            self.wf(),
        ensures
            self.total_width() == sum_widths(self.units()),
    {
    }

    /// An empty line.
    pub fn new() -> (r: Self)
        ensures
            r.wf(),
            r.units().len() == 0,
            r.total_width() == 0,
    {
        TextLine { contents: Vec::new(), width: 0 }
    }

    /// The total width of the line's units.
    pub fn width(&self) -> (r: Pixel)
        ensures
            r == self.total_width(),
    {
        self.width
    }

    /// The number of units on the line.
    pub fn len(&self) -> (r: usize)
        ensures
            r == self.units().len(),
    {
        self.contents.len()
    }

    /// The unit at position `i`, counting from the left.
    pub fn unit(&self, i: usize) -> (r: &Unit<'a, F>)
        requires
            i < self.units().len(),
        ensures
            *r == self.units()[i as int],
    {
        &self.contents[i]
    }

    /// The height of the tallest unit, zero for an empty line.
    pub fn height(&self) -> (r: Pixel)
        ensures
            r == max_height(self.units()),
    {
        let mut h: Pixel = 0;
        let mut i: usize = 0;
        while i < self.contents.len()
            invariant
                i <= self.contents.len(),
                h == max_height(self.contents@.take(i as int)),
            decreases self.contents.len() - i,
        {
            proof {
                assert(self.contents@.take(i as int + 1) =~= self.contents@.take(i as int).push(self.contents@[i as int]));
                lemma_max_height_push(self.contents@.take(i as int), self.contents@[i as int]);
            }
            if self.contents[i].height > h {
                h = self.contents[i].height;
            }
            i = i + 1;
        }
        assert(self.contents@.take(i as int) =~= self.contents@);
        h
    }

    /// Appends `unit` at the end of the line.
    pub fn push(&mut self, unit: Unit<'a, F>)
        requires
            old(self).wf(),
            old(self).total_width() + unit.width <= usize::MAX,
        ensures
            final(self).wf(),
            final(self).units() == old(self).units().push(unit),
            final(self).total_width() == old(self).total_width() + unit.width,
    {
        self.width = self.width + unit.width;
        self.contents.push(unit);
        assert(self.contents@.drop_last() =~= old(self).contents@);
    }

    /// Whether `unit` would still fit the width bound at the end of the line.
    pub fn would_fit(&self, max_size: SizeConstraint, unit: &Unit<'a, F>) -> (r: bool)
        ensures
            r == max_size.fits_width_spec(self.total_width() + unit.width),
            r && max_size.width is Some ==> self.total_width() + unit.width <= usize::MAX,
    {
        match max_size.width {
            Some(w) => self.width <= w && unit.width <= w - self.width,
            None => true,
        }
    }

    /// Whether an ellipsis of three units, each `advance` wide and `height`
    /// tall, fits `max_size` at the end of the line.
    pub fn ellipsis_fits(&self, advance: Pixel, height: Pixel, max_size: SizeConstraint) -> (r: bool)
        requires
            self.wf(),
        ensures
            r == (self.total_width() + 3 * advance <= usize::MAX && max_size.fits_width_spec(
                self.total_width() + 3 * advance,
            ) && max_size.fits_height_spec(
                if max_height(self.units()) >= height {
                    max_height(self.units())
                } else {
                    height as int
                },
            )),
    {
        if advance > (usize::MAX - self.width) / 3 {
            return false;
        }
        let h = self.height();
        let tallest = if h >= height {
            h
        } else {
            height
        };
        max_size.fits_width(self.width + 3 * advance) && max_size.fits_height(tallest)
    }

    /// Removes the last unit of the line, if any.
    pub fn pop(&mut self) -> (r: Option<Unit<'a, F>>)
        requires
            old(self).wf(),
        ensures
            final(self).wf(),
            old(self).units().len() == 0 ==> r is None && final(self).units() == old(self).units(),
            old(self).units().len() > 0 ==> {
                &&& r == Some(old(self).units().last())
                &&& final(self).units() == old(self).units().drop_last()
                &&& final(self).total_width() == old(self).total_width() - old(self).units().last().width
            },
    {
        match self.contents.pop() {
            Some(unit) => {
                proof {
                    lemma_sum_widths_prefix(self.contents@, self.contents@.len() as int);
                    assert(self.contents@.take(self.contents@.len() as int) =~= self.contents@);
                }
                self.width = self.width - unit.width;
                Some(unit)
            },
            None => None,
        }
    }
}

/// The narrowest line that word wrapping may leave under `max_size`.
pub open spec fn min_line_width(max_size: SizeConstraint) -> int {
    match max_size.width {
        Some(w) => w * WORD_WRAP_LENGTH_THRESHOLD_PERCENT / 100,
        None => 0,
    }
}

/// The backward search for a word break over the first `i` units: `breaking`
/// once a word boundary has been reached and whitespace is being skipped. The
/// result is how many units stay on the line.
pub open spec fn split_scan<'a, F>(units: Seq<Unit<'a, F>>, min_width: int, i: int, breaking: bool) -> int
    decreases i,
{
    if i <= 0 {
        units.len() as int
    } else {
        let u = units[i - 1];
        if breaking || u.break_kind == BreakKind::WordBoundary {
            if u.raster is None {
                split_scan(units, min_width, i - 1, true)
            } else {
                i
            }
        } else if sum_widths(units.take(i - 1)) < min_width {
            units.len() as int
        } else {
            split_scan(units, min_width, i - 1, false)
        }
    }
}

/// How many units of a full line word wrapping keeps: everything up to the
/// last visible unit before the last word boundary. The whole line is kept
/// when the search would leave less than `min_width`, or finds no break.
pub open spec fn split_index<'a, F>(units: Seq<Unit<'a, F>>, min_width: int) -> int {
    split_scan(units, min_width, units.len() as int, false)
}

proof fn lemma_split_scan_range<'a, F>(units: Seq<Unit<'a, F>>, min_width: int, i: int, breaking: bool)
    requires
        i <= units.len(),
    ensures
        0 <= split_scan(units, min_width, i, breaking) <= units.len(),
        units.len() > 0 ==> split_scan(units, min_width, i, breaking) >= 1,
    decreases i,
{
    if i > 0 {
        lemma_split_scan_range(units, min_width, i - 1, true);
        lemma_split_scan_range(units, min_width, i - 1, false);
    }
}

proof fn lemma_word_run_cancels<'a, F>(units: Seq<Unit<'a, F>>, min_width: int, k: int, i: int)
    requires
        0 <= k < i <= units.len(),
        sum_widths(units.take(k)) < min_width,
        forall|j: int| k <= j < units.len() ==> units[j].break_kind == BreakKind::Character,
    ensures
        split_scan(units, min_width, i, false) == units.len(),
    decreases i,
{
    if i - 1 > k && sum_widths(units.take(i - 1)) >= min_width {
        lemma_word_run_cancels(units, min_width, k, i - 1);
    }
}

/// A single word that runs from the end of a line back past the narrowest
/// width word wrapping may leave cancels the split: the whole line is kept and
/// nothing overflows.
pub proof fn lemma_long_word_keeps_line<'a, F>(units: Seq<Unit<'a, F>>, min_width: int, k: int)
    requires
        0 <= k < units.len(),
        sum_widths(units.take(k)) < min_width,
        forall|j: int| k <= j < units.len() ==> units[j].break_kind == BreakKind::Character,
    ensures
        split_index(units, min_width) == units.len(),
        units.take(split_index(units, min_width)) == units,
        units.skip(split_index(units, min_width)).len() == 0,
{
    lemma_word_run_cancels(units, min_width, k, units.len() as int);
    assert(units.take(units.len() as int) =~= units);
}

/// A cursor that walks a line backwards from its end, keeping the width of
/// the units before it; it gives the line back split at its position or whole.
struct LineSplitIter<'a, F> {
    line: TextLine<'a, F>,
    position: usize,
    width_at_position: Pixel,
}

impl<'a, F: GlyphSource> LineSplitIter<'a, F> {
    spec fn wf(&self) -> bool {
        &&& self.line.wf()
        &&& self.position <= self.line.contents@.len()
        &&& self.width_at_position == sum_widths(self.line.contents@.take(self.position as int))
    }

    fn new(line: TextLine<'a, F>) -> (r: Self)
        requires
            line.wf(),
        ensures
            r.wf(),
            r.line == line,
            r.position == line.contents@.len(),
    {
        assert(line.contents@.take(line.contents@.len() as int) =~= line.contents@);
        LineSplitIter { position: line.contents.len(), width_at_position: line.width, line }
    }

    /// Moves to the previous unit; gives the width of the units before it, or
    /// `None` at the start of the line.
    fn advance(&mut self) -> (r: Option<Pixel>)
        requires
            old(self).wf(),
        ensures
            final(self).wf(),
            final(self).line == old(self).line,
            old(self).position == 0 ==> r is None && final(self).position == 0,
            old(self).position > 0 ==> final(self).position == old(self).position - 1 && r
                == Some(final(self).width_at_position),
    {
        if self.position == 0 {
            None
        } else {
            proof {
                lemma_sum_widths_step(self.line.contents@, self.position - 1);
                lemma_sum_widths_prefix(self.line.contents@, self.position - 1);
            }
            self.position = self.position - 1;
            self.width_at_position = self.width_at_position - self.line.contents[self.position].width;
            Some(self.width_at_position)
        }
    }

    /// Moves to the next unit, if the cursor is not at the end of the line.
    fn retreat(&mut self)
        requires
            old(self).wf(),
        ensures
            final(self).wf(),
            final(self).line == old(self).line,
            final(self).position == if old(self).position < old(self).line.contents@.len() {
                old(self).position + 1
            } else {
                old(self).position as int
            },
    {
        if self.position < self.line.contents.len() {
            proof {
                lemma_sum_widths_step(self.line.contents@, self.position as int);
                lemma_sum_widths_prefix(self.line.contents@, self.position + 1);
            }
            self.width_at_position = self.width_at_position + self.line.contents[self.position].width;
            self.position = self.position + 1;
        }
    }

    fn current(&self) -> (r: &Unit<'a, F>)
        requires
            self.position < self.line.contents@.len(),
        ensures
            *r == self.line.contents@[self.position as int],
    {
        &self.line.contents[self.position]
    }

    /// The line split at the cursor: the units before it, and those after.
    fn confirm(self) -> (r: (TextLine<'a, F>, Vec<Unit<'a, F>>))
        requires
            self.wf(),
        ensures
            r.0.wf(),
            r.0.units() == self.line.contents@.take(self.position as int),
            r.1@ == self.line.contents@.skip(self.position as int),
    {
        let mut contents = self.line.contents;
        let split = contents.split_off(self.position);
        (TextLine { contents, width: self.width_at_position }, split)
    }

    /// The whole line, with nothing split off.
    fn cancel(self) -> (r: (TextLine<'a, F>, Vec<Unit<'a, F>>))
        requires
            self.wf(),
        ensures
            r.0 == self.line,
            r.1@.len() == 0,
    {
        (self.line, Vec::new())
    }
}

/// The narrowest line that word wrapping may leave under `max_size`.
fn min_width_of(max_size: SizeConstraint) -> (r: Pixel)
    ensures
        r == min_line_width(max_size),
{
    match max_size.width {
        Some(w) => ((w as u128) * (WORD_WRAP_LENGTH_THRESHOLD_PERCENT as u128) / 100) as Pixel,
        None => 0,
    }
}

impl<'a, F: GlyphSource> TextLine<'a, F> {
    /// Splits a full line after its last word boundary, skipping the
    /// whitespace before that boundary: the units kept, and the overflow
    /// (whitespace included) to go on the next line. The line is kept whole,
    /// with no overflow, when the split would leave less than the word-wrap
    /// threshold of the width bound.
    pub fn split_at_word_boundary(self, max_size: SizeConstraint) -> (r: (TextLine<'a, F>, Vec<Unit<'a, F>>))
        requires
            self.wf(),
        ensures
            r.0.wf(),
            self.units().len() > 0 ==> r.0.units().len() > 0,
            r.0.units() == self.units().take(split_index(self.units(), min_line_width(max_size))),
            r.1@ == self.units().skip(split_index(self.units(), min_line_width(max_size))),
    {
        let min_width = min_width_of(max_size);
        let ghost units = self.contents@;
        proof {
            lemma_split_scan_range(units, min_width as int, units.len() as int, false);
        }
        let ghost target = split_index(units, min_width as int);
        assert(units.take(units.len() as int) =~= units);
        assert(units.skip(units.len() as int) =~= Seq::<Unit<'a, F>>::empty());
        let mut cursor = LineSplitIter::new(self);
        let mut breaking = false;
        loop
            invariant
                cursor.wf(),
                cursor.line.contents@ == units,
                cursor.line == self,
                units.len() == self.contents@.len(),
                min_width == min_line_width(max_size),
                target == split_index(units, min_width as int),
                target == split_scan(units, min_width as int, cursor.position as int, breaking),
                units.take(units.len() as int) == units,
                units.skip(units.len() as int) =~= Seq::<Unit<'a, F>>::empty(),
            decreases cursor.position,
        {
            match cursor.advance() {
                None => {
                    return cursor.cancel();
                },
                Some(width_at_unit) => {
                    let unit = cursor.current();
                    if breaking || unit.break_kind == BreakKind::WordBoundary {
                        if unit.is_whitespace() {
                            breaking = true;
                        } else {
                            cursor.retreat();
                            return cursor.confirm();
                        }
                    } else if width_at_unit < min_width {
                        return cursor.cancel();
                    }
                },
            }
        }
    }

    /// Removes the run of whitespace at the end of the line.
    pub fn trim_trailing_whitespace(self) -> (r: TextLine<'a, F>)
        requires
            self.wf(),
        ensures
            r.wf(),
            exists|k: int|
                0 <= k <= self.units().len() && r.units() == self.units().take(k) && (forall|j: int|
                    k <= j < self.units().len() ==> (#[trigger] self.units()[j]).whitespace()) && (k
                    == 0 || !self.units()[k - 1].whitespace()),
    {
        let ghost units = self.contents@;
        let mut cursor = LineSplitIter::new(self);
        loop
            invariant
                cursor.wf(),
                cursor.line.contents@ == units,
                units == self.units(),
                forall|j: int| cursor.position <= j < units.len() ==> (#[trigger] units[j]).whitespace(),
            decreases cursor.position,
        {
            match cursor.advance() {
                None => {
                    let r = cursor.confirm().0;
                    assert(r.units() == self.units().take(0));
                    return r;
                },
                Some(_) => {
                    if !cursor.current().is_whitespace() {
                        cursor.retreat();
                        let ghost k = cursor.position as int;
                        let r = cursor.confirm().0;
                        assert(r.units() == self.units().take(k));
                        assert(!self.units()[k - 1].whitespace());
                        return r;
                    }
                },
            }
        }
    }
}

/// The height of a stack of lines: the sum of their heights.
pub open spec fn body_height<'a, F: GlyphSource>(lines: Seq<TextLine<'a, F>>) -> int
    decreases lines.len(),
{
    if lines.len() == 0 {
        0
    } else {
        body_height(lines.drop_last()) + max_height(lines.last().units())
    }
}

/// Whether a stack of lines fits `max_size`: each line fits the width bound
/// and their total height fits the height bound.
pub open spec fn body_fits<'a, F: GlyphSource>(max_size: SizeConstraint, lines: Seq<TextLine<'a, F>>) -> bool {
    &&& forall|i: int| 0 <= i < lines.len() ==> max_size.fits_width_spec(#[trigger] lines[i].total_width())
    &&& max_size.fits_height_spec(body_height(lines))
}

/// `e` is one of the three periods of an ellipsis that replaces `u`: set in
/// its font and size, as wide as the period's advance.
pub open spec fn ellipsis_unit_of<'a, F>(e: Unit<'a, F>, u: Unit<'a, F>) -> bool {
    &&& e.ch == '.'
    &&& e.raster matches Some(raster) && raster.advance == e.width
    &&& e.height == u.height
    &&& e.font == u.font
    &&& e.break_kind == BreakKind::Character
}

/// `line` is `old` cut short: empty, or a proper prefix of `old` followed by
/// an ellipsis for the first unit dropped, the whole fitting `max_size`.
pub open spec fn truncated_from<'a, F>(line: Seq<Unit<'a, F>>, old: Seq<Unit<'a, F>>, max_size: SizeConstraint) -> bool {
    ||| line.len() == 0
    ||| exists|j: int|
        0 <= j < old.len() && line.len() == j + 3 && line.take(j) == old.take(j) && (forall|e: int|
            j <= e < j + 3 ==> ellipsis_unit_of(#[trigger] line[e], old[j]))
            && max_size.fits_width_spec(sum_widths(line)) && max_size.fits_height_spec(max_height(line))
}

proof fn lemma_max_height_nonneg<'a, F>(units: Seq<Unit<'a, F>>)
    ensures
        max_height(units) >= 0,
    decreases units.len(),
{
    if units.len() > 0 {
        lemma_max_height_nonneg(units.drop_last());
    }
}

proof fn lemma_body_height_step<'a, F: GlyphSource>(lines: Seq<TextLine<'a, F>>, i: int)
    requires
        0 <= i < lines.len(),
    ensures
        body_height(lines.take(i + 1)) == body_height(lines.take(i)) + max_height(lines[i].units()),
{
    assert(lines.take(i + 1).drop_last() =~= lines.take(i));
}

proof fn lemma_body_height_prefix<'a, F: GlyphSource>(lines: Seq<TextLine<'a, F>>, i: int)
    requires
        0 <= i <= lines.len(),
    ensures
        0 <= body_height(lines.take(i)) <= body_height(lines),
    decreases lines.len(),
{
    if lines.len() > 0 {
        lemma_max_height_nonneg(lines.last().units());
    }
    if i == lines.len() {
        assert(lines.take(i) =~= lines);
        if lines.len() > 0 {
            lemma_body_height_prefix(lines.drop_last(), i - 1);
            assert(lines.drop_last().take(i - 1) =~= lines.drop_last());
        }
    } else {
        lemma_body_height_prefix(lines.drop_last(), i);
        assert(lines.drop_last().take(i) =~= lines.take(i));
    }
}

/// The characters that a stack of lines shows, top to bottom.
pub open spec fn shown_lines<'a, F: GlyphSource>(lines: Seq<TextLine<'a, F>>) -> Seq<char>
    decreases lines.len(),
{
    if lines.len() == 0 {
        Seq::empty()
    } else {
        shown_lines(lines.drop_last()) + shown(lines.last().units())
    }
}

/// Puts `tail` and then `unit` back at the front of `queue`, in order.
fn requeue<'a, F>(queue: &mut VecDeque<Unit<'a, F>>, tail: Vec<Unit<'a, F>>, unit: Unit<'a, F>)
    ensures
        final(queue)@ == tail@ + (seq![unit] + old(queue)@),
{
    queue.push_front(unit);
    let mut tail = tail;
    let ghost requeued = tail@ + queue@;
    while tail.len() > 0
        invariant
            tail@ + queue@ == requeued,
        decreases tail@.len(),
    {
        let ghost tail_before = tail@;
        let ghost prior = queue@;
        match tail.pop() {
            Some(u) => {
                queue.push_front(u);
                assert(tail_before =~= tail@.push(u));
                assert(tail@ + queue@ =~= tail_before + prior);
            },
            None => {},
        }
    }
    assert(tail@ + queue@ =~= queue@);
}

/// A line that neither begins nor ends with whitespace.
pub open spec fn no_edge_whitespace<'a, F>(units: Seq<Unit<'a, F>>) -> bool {
    units.len() > 0 ==> !units[0].whitespace() && !units.last().whitespace()
}

/// A line that fits the width bound, unless it is a single unit too wide
/// for any line.
pub open spec fn fits_or_single<'a, F: GlyphSource>(max_size: SizeConstraint, line: TextLine<'a, F>) -> bool {
    max_size.fits_width_spec(line.total_width()) || line.units().len() <= 1
}

/// Whether `wrapping` may break text onto further lines.
pub open spec fn multi_line(wrapping: Wrapping) -> bool {
    wrapping == Wrapping::Word || wrapping == Wrapping::Character
}

proof fn lemma_truncated_keeps_edges<'a, F>(line: Seq<Unit<'a, F>>, old: Seq<Unit<'a, F>>, max_size: SizeConstraint)
    requires
        truncated_from(line, old, max_size),
        old.len() > 0 ==> !old[0].whitespace(),
    ensures
        no_edge_whitespace(line),
{
    if line.len() > 0 {
        let j = choose|j: int|
            0 <= j < old.len() && line.len() == j + 3 && line.take(j) == old.take(j) && (forall|e: int|
                j <= e < j + 3 ==> ellipsis_unit_of(#[trigger] line[e], old[j]))
                && max_size.fits_width_spec(sum_widths(line)) && max_size.fits_height_spec(max_height(line));
        assert(ellipsis_unit_of(line[line.len() - 1], old[j]));
        if j > 0 {
            assert(line.take(j)[0] == old.take(j)[0]);
        } else {
            assert(ellipsis_unit_of(line[0], old[j]));
        }
    }
}

/// A prefix of a line that ends on a visible unit is no longer than the part
/// of the line before its trailing whitespace, so it is no wider either.
proof fn lemma_visible_prefix_fits<'a, F>(units: Seq<Unit<'a, F>>, f: int, k: int, max_size: SizeConstraint)
    requires
        0 <= f <= units.len(),
        0 <= k <= units.len(),
        max_size.fits_width_spec(sum_widths(units.take(f))) || f <= 1,
        forall|j: int| f <= j < units.len() ==> (#[trigger] units[j]).whitespace(),
        k == 0 || !units[k - 1].whitespace(),
    ensures
        max_size.fits_width_spec(sum_widths(units.take(k))) || k <= 1,
        max_size.fits_width_spec(sum_widths(units.take(f))) ==> max_size.fits_width_spec(sum_widths(units.take(k))),
{
    if k > 0 {
        assert(k - 1 < f);
    }
    lemma_sum_widths_prefix(units.take(f), k);
    assert(units.take(f).take(k) =~= units.take(k));
}

/// What truncation keeps of a laid-out body: lines without edge whitespace,
/// and lines that fit except possibly the last.
proof fn lemma_truncation_keeps_shape<'a, F: GlyphSource>(
    old: Seq<TextLine<'a, F>>,
    new: Seq<TextLine<'a, F>>,
    max_size: SizeConstraint,
    multi: bool,
)
    requires
        new.len() <= old.len(),
        forall|i: int| 0 <= i < new.len() - 1 ==> #[trigger] new[i] == old[i],
        new.len() > 0 ==> truncated_from(new.last().units(), old[new.len() - 1].units(), max_size),
        forall|i: int| 0 <= i < old.len() ==> no_edge_whitespace(#[trigger] old[i].units()),
        multi ==> forall|i: int| 0 <= i < old.len() ==> fits_or_single(max_size, #[trigger] old[i]),
    ensures
        forall|i: int| 0 <= i < new.len() ==> no_edge_whitespace(#[trigger] new[i].units()),
        multi ==> forall|i: int| 0 <= i < new.len() - 1 ==> fits_or_single(max_size, #[trigger] new[i]),
{
    if new.len() > 0 {
        let last = new.len() - 1;
        assert(no_edge_whitespace(old[last].units()));
        lemma_truncated_keeps_edges(new.last().units(), old[last].units(), max_size);
    }
    assert forall|i: int| 0 <= i < new.len() implies no_edge_whitespace(#[trigger] new[i].units()) by {
        if i < new.len() - 1 {
            assert(new[i] == old[i]);
        }
    }
    if multi {
        assert forall|i: int| 0 <= i < new.len() - 1 implies fits_or_single(max_size, #[trigger] new[i]) by {
            assert(new[i] == old[i]);
        }
    }
}

/// `a` is an initial part of `b`.
pub open spec fn prefix_of(a: Seq<char>, b: Seq<char>) -> bool {
    a.len() <= b.len() && b.take(a.len() as int) == a
}

/// `shown` is an initial part of `full`, followed by an ellipsis if it was
/// cut short.
pub open spec fn cut_short_of(shown: Seq<char>, full: Seq<char>) -> bool {
    exists|p: Seq<char>| prefix_of(p, full) && (shown == p || shown == p + seq!['.', '.', '.'])
}

proof fn lemma_prefix_concat(a: Seq<char>, b: Seq<char>)
    ensures
        prefix_of(a, a + b),
{
    assert((a + b).take(a.len() as int) =~= a);
}

proof fn lemma_prefix_trans(a: Seq<char>, b: Seq<char>, c: Seq<char>)
    requires
        prefix_of(a, b),
        prefix_of(b, c),
    ensures
        prefix_of(a, c),
{
    assert(c.take(a.len() as int) =~= c.take(b.len() as int).take(a.len() as int));
}

proof fn lemma_prefix_prepend(x: Seq<char>, a: Seq<char>, b: Seq<char>)
    requires
        prefix_of(a, b),
    ensures
        prefix_of(x + a, x + b),
{
    assert((x + b).take((x + a).len() as int) =~= x + b.take(a.len() as int));
}

proof fn lemma_cut_short_within(s: Seq<char>, a: Seq<char>, t: Seq<char>)
    requires
        cut_short_of(s, a),
        prefix_of(a, t),
    ensures
        cut_short_of(s, t),
{
    let p = choose|p: Seq<char>| prefix_of(p, a) && (s == p || s == p + seq!['.', '.', '.']);
    lemma_prefix_trans(p, a, t);
}

proof fn lemma_shown_lines_prefix<'a, F: GlyphSource>(lines: Seq<TextLine<'a, F>>, m: int)
    requires
        0 <= m <= lines.len(),
    ensures
        prefix_of(shown_lines(lines.take(m)), shown_lines(lines)),
    decreases lines.len(),
{
    if m == lines.len() {
        assert(lines.take(m) =~= lines);
        assert(shown_lines(lines).take(shown_lines(lines).len() as int) =~= shown_lines(lines));
    } else {
        lemma_shown_lines_prefix(lines.drop_last(), m);
        assert(lines.drop_last().take(m) =~= lines.take(m));
        lemma_prefix_concat(shown_lines(lines.drop_last()), shown(lines.last().units()));
        lemma_prefix_trans(shown_lines(lines.take(m)), shown_lines(lines.drop_last()), shown_lines(lines));
    }
}

proof fn lemma_truncated_shown<'a, F>(line: Seq<Unit<'a, F>>, old: Seq<Unit<'a, F>>, max_size: SizeConstraint)
    requires
        truncated_from(line, old, max_size),
    ensures
        cut_short_of(shown(line), shown(old)),
{
    if line.len() == 0 {
        assert(shown(line) =~= Seq::<char>::empty());
        assert(shown(old).take(0) =~= Seq::<char>::empty());
        assert(prefix_of(Seq::<char>::empty(), shown(old)));
    } else {
        let j = choose|j: int|
            0 <= j < old.len() && line.len() == j + 3 && line.take(j) == old.take(j) && (forall|e: int|
                j <= e < j + 3 ==> ellipsis_unit_of(#[trigger] line[e], old[j]))
                && max_size.fits_width_spec(sum_widths(line)) && max_size.fits_height_spec(max_height(line));
        let tail = line.skip(j);
        assert(line =~= old.take(j) + tail);
        lemma_shown_add(old.take(j), tail);
        assert(ellipsis_unit_of(line[j], old[j]));
        assert(ellipsis_unit_of(line[j + 1], old[j]));
        assert(ellipsis_unit_of(line[j + 2], old[j]));
        assert(tail.drop_last().drop_last().drop_last() =~= Seq::<Unit<'a, F>>::empty());
        assert(shown(Seq::<Unit<'a, F>>::empty()) =~= Seq::<char>::empty());
        assert(shown(tail.drop_last().drop_last()) =~= seq!['.']);
        assert(shown(tail.drop_last()) =~= seq!['.', '.']);
        assert(shown(tail) =~= seq!['.', '.', '.']);
        assert(old =~= old.take(j) + old.skip(j));
        lemma_shown_add(old.take(j), old.skip(j));
        lemma_prefix_concat(shown(old.take(j)), shown(old.skip(j)));
    }
}

/// The lines that a text was laid out in, top to bottom.
pub struct TextBody<'a, F> {
    lines: Vec<TextLine<'a, F>>,
    /// Set when the text was cut short though the caller did not ask for
    /// truncation, or when what is left does not fit.
    truncation_warning: bool,
}

impl<'a, F: GlyphSource> TextBody<'a, F> {
    /// The lines, top to bottom.
    pub closed spec fn lines(&self) -> Seq<TextLine<'a, F>> {
        self.lines@
    }

    /// The truncation warning flag.
    pub closed spec fn warning(&self) -> bool {
        self.truncation_warning
    }

    /// Every line is well formed.
    pub open spec fn wf(&self) -> bool {
        forall|i: int| 0 <= i < self.lines().len() ==> (#[trigger] self.lines()[i]).wf()
    }

    /// The number of lines.
    pub fn line_count(&self) -> (r: usize)
        ensures
            r == self.lines().len(),
    {
        self.lines.len()
    }

    /// The line at position `i`, counting from the top.
    pub fn line(&self, i: usize) -> (r: &TextLine<'a, F>)
        requires
            i < self.lines().len(),
        ensures
            *r == self.lines()[i as int],
    {
        &self.lines[i]
    }

    /// Whether the text was cut short unexpectedly, or does not fit.
    pub fn truncation_warning(&self) -> (r: bool)
        ensures
            r == self.warning(),
    {
        self.truncation_warning
    }

    /// Whether the lines' total height fits the height bound.
    pub fn fits_height(&self, max_size: SizeConstraint) -> (r: bool)
        ensures
            r == max_size.fits_height_spec(body_height(self.lines())),
    {
        match max_size.height {
            None => true,
            Some(bound) => {
                let mut total: Pixel = 0;
                let mut i: usize = 0;
                while i < self.lines.len()
                    invariant
                        i <= self.lines@.len(),
                        total == body_height(self.lines@.take(i as int)),
                        total <= bound,
                        max_size.height == Some(bound),
                    decreases self.lines@.len() - i,
                {
                    let h = self.lines[i].height();
                    proof {
                        lemma_body_height_step(self.lines@, i as int);
                    }
                    if h > bound - total {
                        proof {
                            lemma_body_height_prefix(self.lines@, i + 1);
                        }
                        return false;
                    }
                    total = total + h;
                    i = i + 1;
                }
                assert(self.lines@.take(i as int) =~= self.lines@);
                true
            },
        }
    }

    /// Whether every line fits the width bound and the lines' total height
    /// fits the height bound.
    pub fn fits(&self, max_size: SizeConstraint) -> (r: bool)
        ensures
            r == body_fits(max_size, self.lines()),
    {
        let mut i: usize = 0;
        while i < self.lines.len()
            invariant
                i <= self.lines@.len(),
                forall|j: int| 0 <= j < i ==> max_size.fits_width_spec(#[trigger] self.lines@[j].total_width()),
            decreases self.lines@.len() - i,
        {
            if !max_size.fits_width(self.lines[i].width()) {
                return false;
            }
            i = i + 1;
        }
        self.fits_height(max_size)
    }

    /// Cuts `last` short: drops units from its end until an ellipsis, set in
    /// the font and size of the last unit dropped, fits after them; the line
    /// ends up empty when no such ellipsis fits.
    fn end_with_ellipsis(last: TextLine<'a, F>, max_size: SizeConstraint) -> (r: TextLine<'a, F>)
        requires
            last.wf(),
        ensures
            r.wf(),
            truncated_from(r.units(), last.units(), max_size),
    {
        let mut line = last;
        let ghost full = line.units();
        loop
            invariant
                line.wf(),
                full == last.units(),
                line.units().len() <= full.len(),
                line.units() == full.take(line.units().len() as int),
            decreases line.units().len(),
        {
            match line.pop() {
                None => {
                    return line;
                },
                Some(unit) => {
                    let ghost j = line.units().len() as int;
                    let ghost kept = line.units();
                    assert(kept =~= full.take(j));
                    let period = Raster::rasterize(unit.font, unit.height, '.');
                    if line.ellipsis_fits(period.advance, unit.height, max_size) {
                        let advance = period.advance;
                        line.push(Unit { width: advance, height: unit.height, raster: Some(period.duplicate()), break_kind: BreakKind::Character, font: unit.font, ch: '.' });
                        line.push(Unit { width: advance, height: unit.height, raster: Some(period.duplicate()), break_kind: BreakKind::Character, font: unit.font, ch: '.' });
                        line.push(Unit { width: advance, height: unit.height, raster: Some(period), break_kind: BreakKind::Character, font: unit.font, ch: '.' });
                        proof {
                            let l = line.units();
                            assert(l.take(j) =~= full.take(j));
                            assert(l.len() == j + 3);
                            assert(full[j] == unit);
                            assert(ellipsis_unit_of(l[j], full[j]));
                            assert(ellipsis_unit_of(l[j + 1], full[j]));
                            assert(ellipsis_unit_of(l[j + 2], full[j]));
                            lemma_max_height_push(kept, l[j]);
                            assert(kept.push(l[j]) =~= l.take(j + 1));
                            lemma_max_height_push(l.take(j + 1), l[j + 1]);
                            assert(l.take(j + 1).push(l[j + 1]) =~= l.take(j + 2));
                            lemma_max_height_push(l.take(j + 2), l[j + 2]);
                            assert(l.take(j + 2).push(l[j + 2]) =~= l);
                            line.lemma_width_is_sum();
                        }
                        return line;
                    }
                },
            }
        }
    }

    /// Cuts the body down to fit `max_size`: drops whole lines from the bottom
    /// while the height does not fit, then ends the last line with an
    /// ellipsis that fits, dropping units before it as needed. The warning
    /// flag becomes `with_warning`, and is set as well when what is left still
    /// does not fit, or when no line is left with an ellipsis.
    pub fn truncate(&mut self, max_size: SizeConstraint, with_warning: bool)
        requires
            old(self).wf(),
        ensures
            final(self).wf(),
            final(self).warning() == (with_warning || !body_fits(max_size, final(self).lines())
                || final(self).lines().len() == 0 || final(self).lines().last().units().len() == 0),
            final(self).lines().len() <= old(self).lines().len(),
            forall|i: int|
                0 <= i < final(self).lines().len() - 1 ==> #[trigger] final(self).lines()[i] == old(self).lines()[i],
            final(self).lines().len() > 0 ==> truncated_from(
                final(self).lines().last().units(),
                old(self).lines()[final(self).lines().len() - 1].units(),
                max_size,
            ),
            max_size.fits_height_spec(body_height(old(self).lines().take(final(self).lines().len() as int))),
            cut_short_of(shown_lines(final(self).lines()), shown_lines(old(self).lines())),
            final(self).lines().len() < old(self).lines().len() ==> !max_size.fits_height_spec(
                body_height(old(self).lines().take(final(self).lines().len() as int + 1)),
            ),
    {
        self.truncation_warning = with_warning;
        let ghost old_lines = self.lines@;
        while !self.fits_height(max_size)
            invariant
                self.wf(),
                self.lines@.len() <= old_lines.len(),
                self.lines@ == old_lines.take(self.lines@.len() as int),
                self.lines@.len() < old_lines.len() ==> !max_size.fits_height_spec(
                    body_height(old_lines.take(self.lines@.len() as int + 1)),
                ),
                self.truncation_warning == with_warning,
            decreases self.lines@.len(),
        {
            let ghost before = self.lines@;
            self.lines.pop();
            proof {
                assert(before.len() > 0);
                assert(self.lines@ =~= old_lines.take(self.lines@.len() as int));
                assert(before =~= old_lines.take(self.lines@.len() as int + 1));
            }
        }
        let ghost kept = self.lines@;
        proof {
            lemma_shown_lines_prefix(old_lines, kept.len() as int);
        }
        match self.lines.pop() {
            None => {
                proof {
                    assert(shown_lines(self.lines@) =~= Seq::<char>::empty());
                    assert(prefix_of(Seq::<char>::empty(), shown_lines(old_lines)));
                }
            },
            Some(line) => {
                let ghost rest = self.lines@;
                let ended = Self::end_with_ellipsis(line, max_size);
                let ghost pushed = ended;
                self.lines.push(ended);
                proof {
                    assert(rest =~= old_lines.take(kept.len() - 1));
                    assert forall|i: int| 0 <= i < self.lines@.len() - 1 implies #[trigger] self.lines@[i] == old_lines[i] by {
                        assert(self.lines@[i] == rest[i]);
                        assert(old_lines.take(kept.len() - 1)[i] == old_lines[i]);
                    }
                    assert forall|i: int| 0 <= i < self.lines().len() implies (#[trigger] self.lines()[i]).wf() by {
                        if i < rest.len() {
                            assert(self.lines@[i] == kept[i]);
                        } else {
                            assert(self.lines@[i] == pushed);
                        }
                    }
                    assert(kept[kept.len() - 1] == old_lines[kept.len() - 1]);
                    let o = kept[kept.len() - 1];
                    lemma_truncated_shown(pushed.units(), o.units(), max_size);
                    assert(self.lines@.drop_last() =~= rest);
                    assert(kept.drop_last() =~= rest);
                    let p = choose|p: Seq<char>| prefix_of(p, shown(o.units())) && (shown(pushed.units()) == p || shown(pushed.units()) == p + seq!['.', '.', '.']);
                    lemma_prefix_prepend(shown_lines(rest), p, shown(o.units()));
                    lemma_prefix_trans(shown_lines(rest) + p, shown_lines(kept), shown_lines(old_lines));
                    assert(shown_lines(rest) + (p + seq!['.', '.', '.']) =~= shown_lines(rest) + p + seq!['.', '.', '.']);
                    assert(prefix_of(shown_lines(rest) + p, shown_lines(old_lines)));
                }
            },
        }
        if !self.fits(max_size) || self.lines.len() == 0 || self.lines[self.lines.len() - 1].len() == 0 {
            self.truncation_warning = true;
        }
    }
}

impl<'a, F: GlyphSource> TextBody<'a, F> {
    /// Lays out a single-line label with no wrapping or truncation: one line
    /// holding one unit for each character, whitespace included.
    pub fn new_label(text: RichString<'a, F>, direction: Direction) -> (r: Self)
        requires
            text.wf(),
            text.chars().len() * 0x1_0000_0000 <= usize::MAX,
        ensures
            r.wf(),
            r.lines().len() == 1,
            !r.warning(),
            r.lines()[0].units().len() == text.chars().len(),
            r.lines()[0].total_width() == sum_widths(r.lines()[0].units()),
            forall|i: int|
                0 <= i < text.chars().len() ==> {
                    let u = #[trigger] r.lines()[0].units()[i];
                    &&& u.height == text.size()
                    &&& *u.font == text.font()
                    &&& u.ch == text.chars()[i]
                    &&& u.break_kind == break_kind_of(text.chars()[i])
                    &&& u.whitespace() == white_space(text.chars()[i])
                    &&& (u.raster matches Some(raster) ==> raster.advance == u.width && raster.wf())
                },
    {
        let Direction::Horizontal = direction;
        let mut line = TextLine::new();
        let mut iter = text.rich_iter();
        loop
            invariant
                iter.string() == text,
                text.wf(),
                    text.chars().len() * 0x1_0000_0000 <= usize::MAX,
                iter.position() <= text.chars().len(),
                line.wf(),
                line.units().len() == iter.position(),
                line.total_width() <= iter.position() * 0x1_0000_0000,
                forall|i: int|
                    0 <= i < iter.position() ==> {
                        let u = #[trigger] line.units()[i];
                        &&& u.height == text.size()
                        &&& *u.font == text.font()
                        &&& u.ch == text.chars()[i]
                        &&& u.break_kind == break_kind_of(text.chars()[i])
                        &&& u.whitespace() == white_space(text.chars()[i])
                        &&& (u.raster matches Some(raster) ==> raster.advance == u.width && raster.wf())
                    },
            ensures
                line.wf(),
                line.units().len() == text.chars().len(),
                forall|i: int|
                    0 <= i < text.chars().len() ==> {
                        let u = #[trigger] line.units()[i];
                        &&& u.height == text.size()
                        &&& *u.font == text.font()
                        &&& u.ch == text.chars()[i]
                        &&& u.break_kind == break_kind_of(text.chars()[i])
                        &&& u.whitespace() == white_space(text.chars()[i])
                        &&& (u.raster matches Some(raster) ==> raster.advance == u.width && raster.wf())
                    },
            decreases text.chars().len() - iter.position(),
        {
            let ghost before = line.units();
            match iter.next() {
                None => {
                    break;
                },
                Some(rich_char) => {
                    let unit = Unit::rasterize(rich_char);
                    line.push(unit);
                    assert(forall|i: int| 0 <= i < before.len() ==> line.units()[i] == before[i]);
                },
            }
        }
        let mut lines = Vec::new();
        lines.push(line);
        let r = TextBody { lines, truncation_warning: false };
        assert(r.lines()[0] == line);
        r
    }

    /// Closes `line`: trims its trailing whitespace and appends it.
    fn close_line(
        &mut self,
        line: TextLine<'a, F>,
        max_size: SizeConstraint,
        Ghost(f): Ghost<int>,
        Ghost(multi): Ghost<bool>,
    )
        requires
            lines_laid_out(old(self).lines(), max_size, multi),
            line_in_progress(line, f, max_size),
        ensures
            final(self).wf(),
            lines_laid_out(final(self).lines(), max_size, multi),
            final(self).warning() == old(self).warning(),
            final(self).lines().len() == old(self).lines().len() + 1,
            shown_lines(final(self).lines()) == shown_lines(old(self).lines()) + shown(line.units()),
            max_size.fits_width_spec(sum_widths(line.units().take(f))) ==> max_size.fits_width_spec(
                final(self).lines().last().total_width(),
            ),
    {
        reveal(lines_laid_out);
        reveal(line_in_progress);
        let trimmed = line.trim_trailing_whitespace();
        proof {
            let k = choose|k: int|
                0 <= k <= line.units().len() && trimmed.units() == line.units().take(k) && (forall|j: int|
                    k <= j < line.units().len() ==> (#[trigger] line.units()[j]).whitespace()) && (k
                    == 0 || !line.units()[k - 1].whitespace());
            lemma_visible_prefix_fits(line.units(), f, k, max_size);
            lemma_shown_prefix(line.units(), k);
            if k > 0 {
                assert(trimmed.units()[0] == line.units()[0]);
                assert(trimmed.units().last() == line.units()[k - 1]);
            }
        }
        let ghost pushed = trimmed;
        self.lines.push(trimmed);
        proof {
            assert forall|i: int| 0 <= i < self.lines().len() implies (#[trigger] self.lines()[i]).wf()
                && no_edge_whitespace(self.lines()[i].units()) && (multi ==> fits_or_single(
                max_size,
                self.lines()[i],
            )) by {
                if i < old(self).lines@.len() {
                    assert(self.lines@[i] == old(self).lines@[i]);
                } else {
                    assert(self.lines@[i] == pushed);
                }
            }
            assert(self.lines@.drop_last() =~= old(self).lines@);
        }
    }

    /// Truncates a body whose lines were laid out, keeping their shape.
    fn cut(&mut self, max_size: SizeConstraint, with_warning: bool, Ghost(multi): Ghost<bool>)
        requires
            lines_laid_out(old(self).lines(), max_size, multi),
        ensures
            final(self).wf(),
            forall|i: int| 0 <= i < final(self).lines().len() ==> no_edge_whitespace(#[trigger] final(self).lines()[i].units()),
            multi ==> forall|i: int|
                0 <= i < final(self).lines().len() - 1 ==> fits_or_single(max_size, #[trigger] final(self).lines()[i]),
            final(self).lines().len() <= old(self).lines().len(),
            max_size.height is None ==> final(self).lines().len() == old(self).lines().len(),
            body_fits(max_size, final(self).lines()) || final(self).warning(),
            with_warning ==> final(self).warning(),
            final(self).warning() == (with_warning || !body_fits(max_size, final(self).lines())
                || final(self).lines().len() == 0 || final(self).lines().last().units().len() == 0),
            final(self).lines().len() > 0 ==> truncated_from(
                final(self).lines().last().units(),
                old(self).lines()[final(self).lines().len() - 1].units(),
                max_size,
            ),
            cut_short_of(shown_lines(final(self).lines()), shown_lines(old(self).lines())),
    {
        reveal(lines_laid_out);
        let ghost before = self.lines();
        self.truncate(max_size, with_warning);
        proof {
            lemma_truncation_keeps_shape(before, self.lines(), max_size, multi);
        }
    }

    /// Closes the last line once the text has run out, truncating with a
    /// warning if the body does not fit.
    fn finish(
        &mut self,
        current: TextLine<'a, F>,
        max_size: SizeConstraint,
        Ghost(f): Ghost<int>,
        Ghost(multi): Ghost<bool>,
    )
        requires
            lines_laid_out(old(self).lines(), max_size, multi),
            line_in_progress(current, f, max_size),
            !old(self).warning(),
            !multi ==> old(self).lines().len() == 0,
        ensures
            final(self).wf(),
            forall|i: int| 0 <= i < final(self).lines().len() ==> no_edge_whitespace(#[trigger] final(self).lines()[i].units()),
            multi ==> forall|i: int|
                0 <= i < final(self).lines().len() - 1 ==> fits_or_single(max_size, #[trigger] final(self).lines()[i]),
            !multi ==> final(self).lines().len() <= 1,
            max_size.height is None ==> final(self).lines().len() >= 1,
            body_fits(max_size, final(self).lines()) || final(self).warning(),
            !final(self).warning() ==> shown_lines(final(self).lines()) == shown_lines(old(self).lines()) + shown(current.units()),
            max_size.width is None && max_size.height is None ==> !final(self).warning()
                && final(self).lines().len() == old(self).lines().len() + 1,
            !multi && max_size.height is None && max_size.fits_width_spec(sum_widths(current.units().take(f)))
                ==> !final(self).warning(),
            cut_short_of(shown_lines(final(self).lines()), shown_lines(old(self).lines()) + shown(current.units())),
    {
        self.close_line(current, max_size, Ghost(f), Ghost(multi));
        proof {
            if !multi && max_size.height is None && max_size.fits_width_spec(sum_widths(current.units().take(f))) {
                assert(self.lines().len() == 1);
                assert(body_fits(max_size, self.lines()));
            }
        }
        if !self.fits(max_size) {
            self.cut(max_size, true, Ghost(multi));
        } else {
            proof {
                let s = shown_lines(self.lines());
                assert(s.take(s.len() as int) =~= s);
                assert(prefix_of(s, s));
                reveal(lines_laid_out);
                assert forall|i: int| 0 <= i < self.lines().len() implies no_edge_whitespace(#[trigger] self.lines()[i].units()) && (multi ==> fits_or_single(max_size, self.lines()[i])) by {
                    assert(self.lines()[i].wf());
                }
            }
        }
    }

    /// Ends the line that `unit` does not fit on, as `wrapping` says: the
    /// line is closed (split at a word boundary for word wrapping) and what
    /// did not fit goes back to the front of the queue; or the text is
    /// truncated. Returns whether the layout is complete.
    fn break_line(
        &mut self,
        current: TextLine<'a, F>,
        unit: Unit<'a, F>,
        queue: &mut VecDeque<Unit<'a, F>>,
        wrapping: Wrapping,
        max_size: SizeConstraint,
        Ghost(f): Ghost<int>,
    ) -> (stop: bool)
        requires
            lines_laid_out(old(self).lines(), max_size, multi_line(wrapping)),
            !old(self).warning(),
            !multi_line(wrapping) ==> old(self).lines().len() == 0,
            line_in_progress(current, f, max_size),
            multi_line(wrapping) ==> current.units().len() > 0,
            !multi_line(wrapping) ==> max_size.fits_width_spec(sum_widths(current.units().take(f))),
        ensures
            stop ==> {
                &&& final(self).wf()
                &&& forall|i: int| 0 <= i < final(self).lines().len() ==> no_edge_whitespace(#[trigger] final(self).lines()[i].units())
                &&& multi_line(wrapping) ==> forall|i: int|
                    0 <= i < final(self).lines().len() - 1 ==> fits_or_single(max_size, #[trigger] final(self).lines()[i])
                &&& !multi_line(wrapping) ==> final(self).lines().len() <= 1
                &&& max_size.height is None ==> final(self).lines().len() >= 1
                &&& body_fits(max_size, final(self).lines()) || final(self).warning()
                &&& wrapping != Wrapping::SingleLineTruncate ==> final(self).warning()
                &&& wrapping == Wrapping::SingleLineTruncate && max_size.height is None && final(self).lines().len()
                    > 0 && final(self).lines().last().units().len() > 0 ==> !final(self).warning()
                &&& cut_short_of(shown_lines(final(self).lines()), shown_lines(old(self).lines()) + shown(current.units()))
            },
            !stop ==> {
                &&& multi_line(wrapping)
                &&& lines_laid_out(final(self).lines(), max_size, true)
                &&& !final(self).warning()
                &&& final(queue)@.len() <= old(queue)@.len() + current.units().len()
                &&& shown_lines(final(self).lines()) + shown(final(queue)@) == shown_lines(old(self).lines())
                    + shown(current.units()) + shown(seq![unit]) + shown(old(queue)@)
            },
    {
        let ghost q1 = queue@;
        let ghost lines0 = shown_lines(self.lines());
        let ghost before = current.units();
        let multi = wrapping == Wrapping::Word || wrapping == Wrapping::Character;
        match wrapping {
            Wrapping::Character => {
                self.close_line(current, max_size, Ghost(f), Ghost(multi));
                queue.push_front(unit);
                proof {
                    lemma_prefix_concat(shown_lines(self.lines()), Seq::<char>::empty());
                    assert(shown_lines(self.lines()) + Seq::<char>::empty() =~= shown_lines(self.lines()));
                    lemma_shown_add(seq![unit], q1);
                    assert(shown_lines(self.lines()) + shown(queue@) =~= lines0 + shown(before) + shown(seq![unit]) + shown(q1));
                }
            },
            Wrapping::Word => {
                let (kept, tail, Ghost(fk)) = Self::split_for_word_wrap(current, max_size, Ghost(f));
                let ghost kept_units = kept.units();
                let ghost tail_units = tail@;
                proof {
                    lemma_shown_add(kept_units, tail_units);
                }
                self.close_line(kept, max_size, Ghost(fk), Ghost(multi));
                requeue(queue, tail, unit);
                proof {
                    lemma_prefix_concat(shown(kept_units), shown(tail_units));
                    lemma_prefix_prepend(lines0, shown(kept_units), shown(before));
                    assert(lines0 + (shown(kept_units) + shown(tail_units)) =~= lines0 + shown(kept_units) + shown(tail_units));
                    lemma_shown_add(tail_units, seq![unit] + q1);
                    lemma_shown_add(seq![unit], q1);
                    assert(shown_lines(self.lines()) + shown(queue@) =~= lines0 + shown(before) + shown(seq![unit]) + shown(q1));
                }
            },
            Wrapping::SingleLine | Wrapping::SingleLineTruncate => {
                self.close_line(current, max_size, Ghost(f), Ghost(multi));
                let with_warning = wrapping == Wrapping::SingleLine || !self.fits_height(max_size);
                self.cut(max_size, with_warning, Ghost(multi));
                proof {
                    if wrapping == Wrapping::SingleLineTruncate && max_size.height is None && self.lines().len() > 0
                        && self.lines().last().units().len() > 0 {
                        let l = self.lines().last();
                        assert(self.lines()[self.lines().len() - 1].wf());
                        l.lemma_width_is_sum();
                        assert(max_size.fits_width_spec(sum_widths(l.units())));
                        assert(body_fits(max_size, self.lines()));
                    }
                }
                return true;
            },
        }
        let ghost closed = shown_lines(self.lines());
        assert(prefix_of(closed, lines0 + shown(before)));
        if !self.fits_height(max_size) {
            self.cut(max_size, true, Ghost(multi));
            proof {
                lemma_cut_short_within(shown_lines(self.lines()), closed, lines0 + shown(before));
            }
            return true;
        }
        false
    }

    /// Splits a full line for word wrapping: the part that stays, with how
    /// much of it fits, and the units that go on to the next line.
    fn split_for_word_wrap(line: TextLine<'a, F>, max_size: SizeConstraint, Ghost(f): Ghost<int>) -> (r: (
        TextLine<'a, F>,
        Vec<Unit<'a, F>>,
        Ghost<int>,
    ))
        requires
            line_in_progress(line, f, max_size),
            line.units().len() > 0,
        ensures
            line_in_progress(r.0, r.2@, max_size),
            r.0.units() + r.1@ == line.units(),
            r.0.units().len() > 0,
    {
        reveal(line_in_progress);
        let ghost units = line.units();
        let ghost s = split_index(units, min_line_width(max_size));
        proof {
            lemma_split_scan_range(units, min_line_width(max_size), units.len() as int, false);
        }
        let (kept, tail) = line.split_at_word_boundary(max_size);
        let ghost fk = if s <= f { s } else { f };
        proof {
            if s <= f {
                lemma_sum_widths_prefix(units.take(f), s);
                assert(units.take(f).take(s) =~= units.take(s));
                assert(kept.units().take(s) =~= kept.units());
            } else {
                assert(kept.units().take(f) =~= units.take(f));
            }
            assert forall|j: int| fk <= j < kept.units().len() implies (#[trigger] kept.units()[j]).whitespace() by {
                assert(kept.units()[j] == units[j]);
            }
            assert(kept.units()[0] == units[0]);
            assert(kept.units() + tail@ =~= units);
        }
        (kept, tail, Ghost(fk))
    }
}

/// The lines laid out so far: well formed, without edge whitespace and, when
/// the text may take several lines, fitting or holding a single unit.
#[verifier::opaque]
spec fn lines_laid_out<'a, F: GlyphSource>(lines: Seq<TextLine<'a, F>>, max_size: SizeConstraint, multi: bool) -> bool {
    forall|i: int|
        0 <= i < lines.len() ==> (#[trigger] lines[i]).wf() && no_edge_whitespace(lines[i].units()) && (multi
            ==> fits_or_single(max_size, lines[i]))
}

/// The line being filled: well formed, not beginning with whitespace, and
/// fitting (or a single unit) up to the whitespace at its end, which starts
/// at `f`.
#[verifier::opaque]
spec fn line_in_progress<'a, F: GlyphSource>(line: TextLine<'a, F>, f: int, max_size: SizeConstraint) -> bool {
    &&& line.wf()
    &&& line.units().len() > 0 ==> !line.units()[0].whitespace()
    &&& 0 <= f <= line.units().len()
    &&& max_size.fits_width_spec(sum_widths(line.units().take(f))) || f <= 1
    &&& forall|j: int| f <= j < line.units().len() ==> (#[trigger] line.units()[j]).whitespace()
}

proof fn lemma_shown_one<'a, F>(u: Unit<'a, F>)
    ensures
        shown(seq![u]) == if u.whitespace() {
            Seq::<char>::empty()
        } else {
            seq![u.ch]
        },
{
    assert(seq![u].drop_last() =~= Seq::<Unit<'a, F>>::empty());
    assert(seq![u].last() == u);
    assert(shown(Seq::<Unit<'a, F>>::empty()) == Seq::<char>::empty());
    assert(Seq::<char>::empty().push(u.ch) =~= seq![u.ch]);
}

proof fn lemma_visible_one(c: char)
    ensures
        visible(seq![c]) == if white_space(c) {
            Seq::<char>::empty()
        } else {
            seq![c]
        },
{
    assert(seq![c].drop_last() =~= Seq::<char>::empty());
    assert(seq![c].last() == c);
    assert(visible(Seq::<char>::empty()) == Seq::<char>::empty());
    assert(Seq::<char>::empty().push(c) =~= seq![c]);
}

/// Taking the next unit, from the queue or else from the text, keeps what is
/// still to be shown.
proof fn lemma_next_unit<'a, F>(
    q0: Seq<Unit<'a, F>>,
    queue: Seq<Unit<'a, F>>,
    unit: Unit<'a, F>,
    chars: Seq<char>,
    pos0: int,
    pos: int,
)
    requires
        0 <= pos0 <= chars.len(),
        q0.len() > 0 ==> q0[0] == unit && queue == q0.subrange(1, q0.len() as int) && pos == pos0,
        q0.len() == 0 ==> queue.len() == 0 && pos == pos0 + 1 && pos0 < chars.len() && unit.ch
            == chars[pos0] && unit.whitespace() == white_space(chars[pos0]),
    ensures
        shown(seq![unit]) + shown(queue) + visible(chars.skip(pos)) == shown(q0) + visible(chars.skip(pos0)),
{
    lemma_shown_one(unit);
    if q0.len() > 0 {
        assert(q0 =~= seq![unit] + queue);
        lemma_shown_add(seq![unit], queue);
    } else {
        let c = chars[pos0];
        assert(chars.skip(pos0) =~= seq![c] + chars.skip(pos0 + 1));
        lemma_visible_add(seq![c], chars.skip(pos0 + 1));
        lemma_visible_one(c);
        assert(shown(queue) =~= Seq::<char>::empty());
        assert(shown(q0) =~= Seq::<char>::empty());
        assert(shown(seq![unit]) + shown(queue) =~= shown(seq![unit]));
        assert(shown(q0) + visible(chars.skip(pos0)) =~= visible(chars.skip(pos0)));
    }
}

proof fn lemma_regroup<A>(a: Seq<A>, b: Seq<A>, c: Seq<A>)
    ensures
        a + b + c == a + (b + c),
{
    assert(a + b + c =~= a + (b + c));
}

proof fn lemma_skip_step<A>(x: Seq<A>, q: Seq<A>, v: Seq<A>)
    ensures
        x + q + v == x + ((Seq::<A>::empty() + q) + v),
{
    assert(x + q + v =~= x + ((Seq::<A>::empty() + q) + v));
}

proof fn lemma_push_step<A>(l: Seq<A>, c: Seq<A>, u: Seq<A>, q: Seq<A>, v: Seq<A>)
    ensures
        l + (c + u) + q + v == l + c + ((u + q) + v),
{
    assert(l + (c + u) + q + v =~= l + c + ((u + q) + v));
}

proof fn lemma_break_step<A>(l: Seq<A>, c: Seq<A>, u: Seq<A>, q: Seq<A>, v: Seq<A>, l2: Seq<A>, q2: Seq<A>)
    requires
        l2 + q2 == l + c + u + q,
    ensures
        l2 + Seq::<A>::empty() + q2 + v == l + c + ((u + q) + v),
{
    assert(l2 + Seq::<A>::empty() + q2 + v =~= l2 + q2 + v);
    assert(l + c + u + q + v =~= l + c + ((u + q) + v));
}

proof fn lemma_end_step<A>(x: Seq<A>, q: Seq<A>, v: Seq<A>)
    requires
        q.len() == 0,
        v.len() == 0,
    ensures
        x + q + v == x,
{
    assert(x + q + v =~= x);
}

/// Appends `unit` to the line being filled: a unit that fits, the first
/// unit of the line, or whitespace.
fn extend<'a, F: GlyphSource>(
    line: &mut TextLine<'a, F>,
    unit: Unit<'a, F>,
    max_size: SizeConstraint,
    Ghost(f): Ghost<int>,
    fits: bool,
) -> (r: Ghost<int>)
    requires
        line_in_progress(*old(line), f, max_size),
        fits == max_size.fits_width_spec(old(line).total_width() + unit.width),
        fits || old(line).units().len() == 0 || unit.whitespace(),
        !(old(line).units().len() == 0 && unit.whitespace()),
        old(line).total_width() + unit.width <= usize::MAX,
    ensures
        line_in_progress(*final(line), r@, max_size),
        final(line).units() == old(line).units().push(unit),
        final(line).total_width() == old(line).total_width() + unit.width,
        (fits || unit.whitespace()) && max_size.fits_width_spec(sum_widths(old(line).units().take(f)))
            ==> max_size.fits_width_spec(sum_widths(final(line).units().take(r@))),
{
    reveal(line_in_progress);
    let ghost before = line.units();
    line.push(unit);
    let ghost mut g = f;
    proof {
        assert(line.units().take(before.len() as int) =~= before);
        if fits {
            g = line.units().len() as int;
            assert(line.units().take(g) =~= line.units());
            line.lemma_width_is_sum();
        } else if before.len() == 0 {
            g = 1;
        } else {
            assert(line.units().take(f) =~= before.take(f));
        }
        assert forall|j: int| g <= j < line.units().len() implies (#[trigger] line.units()[j]).whitespace() by {
            if j < before.len() {
                assert(line.units()[j] == before[j]);
            }
        }
        if line.units().len() > 0 {
            if before.len() > 0 {
                assert(line.units()[0] == before[0]);
            }
        }
    }
    Ghost(g)
}

impl<'a, F: GlyphSource> TextBody<'a, F> {
    /// Lays the text out in lines within `max_size`, wrapping as `options`
    /// say. A unit that does not fit ends the line: with character wrapping
    /// it starts the next line; with word wrapping the line is split after
    /// its last word boundary and what follows the break starts the next
    /// line; with single-line wrapping the text is truncated. Whitespace that
    /// does not fit stays on its line, and no line begins or ends with
    /// whitespace. When the lines run past the height bound the text is
    /// truncated with a warning.
    pub fn layout(text: RichString<'a, F>, options: TextOptions, max_size: SizeConstraint) -> (r: Self)
        requires
            text.wf(),
        ensures
            r.wf(),
            forall|i: int| 0 <= i < r.lines().len() ==> no_edge_whitespace(#[trigger] r.lines()[i].units()),
            multi_line(options.wrapping) ==> forall|i: int|
                0 <= i < r.lines().len() - 1 ==> fits_or_single(max_size, #[trigger] r.lines()[i]),
            !multi_line(options.wrapping) ==> r.lines().len() <= 1,
            max_size.height is None ==> r.lines().len() >= 1,
            options.wrapping == Wrapping::SingleLineTruncate && max_size.height is None && r.lines().len() > 0
                && r.lines().last().units().len() > 0 ==> !r.warning(),
            body_fits(max_size, r.lines()) || r.warning(),
            options.wrapping != Wrapping::SingleLineTruncate && !r.warning() ==> shown_lines(r.lines())
                == visible(text.chars()),
            cut_short_of(shown_lines(r.lines()), visible(text.chars())),
            max_size.width is None && max_size.height is None && text.chars().len() * 0x1_0000_0000
                <= usize::MAX ==> {
                &&& !r.warning()
                &&& r.lines().len() == 1
                &&& shown_lines(r.lines()) == visible(text.chars())
            },
    {
        let Direction::Horizontal = options.direction;
        let mut result = TextBody { lines: Vec::new(), truncation_warning: false };
        let mut current = TextLine::new();
        let ghost mut fit_len: int = 0;
        let mut iter = text.rich_iter();
        let mut queue: VecDeque<Unit<'a, F>> = VecDeque::new();
        let multi = options.wrapping == Wrapping::Word || options.wrapping == Wrapping::Character;
        let ghost total = visible(text.chars());
        proof {
            reveal(lines_laid_out);
            reveal(line_in_progress);
            assert(current.units().take(0) =~= Seq::<Unit<'a, F>>::empty());
            assert(text.chars().skip(0) =~= text.chars());
            assert(Seq::<char>::empty() + Seq::<char>::empty() + Seq::<char>::empty() + total =~= total);
        }
        loop
            invariant
                iter.string() == text,
                text.wf(),
                    iter.position() <= text.chars().len(),
                multi == multi_line(options.wrapping),
                lines_laid_out(result.lines(), max_size, multi),
                !result.warning(),
                !multi ==> result.lines().len() == 0,
                line_in_progress(current, fit_len, max_size),
                total == visible(text.chars()),
                shown_lines(result.lines()) + shown(current.units()) + shown(queue@) + visible(
                    text.chars().skip(iter.position() as int),
                ) == total,
                !multi ==> max_size.fits_width_spec(sum_widths(current.units().take(fit_len))),
                max_size.width is None ==> {
                    &&& queue@.len() == 0
                    &&& result.lines().len() == 0
                    &&& current.total_width() <= iter.position() * 0x1_0000_0000
                },
            decreases text.chars().len() - iter.position(), queue@.len() + current.units().len(), queue@.len(),
        {
            let ghost q0 = queue@;
            let ghost pos0 = iter.position() as int;
            let next = match queue.pop_front() {
                Some(unit) => Some(unit),
                None => match iter.next() {
                    Some(rich_char) => Some(Unit::rasterize(rich_char)),
                    None => None,
                },
            };
            let unit = match next {
                Some(unit) => unit,
                None => {
                    proof {
                        assert(text.chars().skip(pos0).len() == 0);
                        assert(visible(text.chars().skip(pos0)) == Seq::<char>::empty());
                        assert(shown(q0) == Seq::<char>::empty());
                        lemma_end_step(shown_lines(result.lines()) + shown(current.units()), shown(q0), visible(text.chars().skip(pos0)));
                    }
                    result.finish(current, max_size, Ghost(fit_len), Ghost(multi));
                    return result;
                },
            };
            let ghost lines0 = shown_lines(result.lines());
            let ghost rest = shown(seq![unit]) + shown(queue@) + visible(text.chars().skip(iter.position() as int));
            proof {
                lemma_next_unit(q0, queue@, unit, text.chars(), pos0, iter.position() as int);
                lemma_regroup(lines0 + shown(current.units()), shown(q0), visible(text.chars().skip(pos0)));
            }
            if current.len() == 0 && unit.is_whitespace() {
                // a line never begins with whitespace
                proof {
                    lemma_shown_one(unit);
                    lemma_skip_step(lines0 + shown(current.units()), shown(queue@), visible(text.chars().skip(iter.position() as int)));
                }
                continue;
            }
            let fits = current.would_fit(max_size, &unit);
            if fits || unit.is_whitespace() || (current.len() == 0 && multi) {
                proof {
                    if max_size.width is None {
                        assert(unit.width <= u32::MAX);
                        assert(iter.position() == pos0 + 1);
                        assert(iter.position() * 0x1_0000_0000 <= text.chars().len() * 0x1_0000_0000) by (nonlinear_arith)
                            requires iter.position() <= text.chars().len();
                    }
                }
                if unit.width > usize::MAX - current.width() {
                    // the line is too wide to measure
                    let ghost done = lines0 + shown(current.units());
                    proof {
                        lemma_prefix_concat(done, rest);
                    }
                    if multi {
                        result.close_line(current, max_size, Ghost(fit_len), Ghost(multi));
                        result.cut(max_size, true, Ghost(multi));
                    } else {
                        result.break_line(current, unit, &mut queue, options.wrapping, max_size, Ghost(fit_len));
                    }
                    proof {
                        lemma_cut_short_within(shown_lines(result.lines()), done, total);
                    }
                    return result;
                }
                let ghost before = current.units();
                let Ghost(g) = extend(&mut current, unit, max_size, Ghost(fit_len), fits);
                proof {
                    fit_len = g;
                    assert(current.units() =~= before + seq![unit]);
                    lemma_shown_add(before, seq![unit]);
                    lemma_push_step(lines0, shown(before), shown(seq![unit]), shown(queue@), visible(text.chars().skip(iter.position() as int)));
                }
                continue;
            }
            let ghost before = current.units();
            let ghost q1 = queue@;
            let ghost lines1 = shown_lines(result.lines());
            proof {
                lemma_prefix_concat(lines1 + shown(before), rest);
            }
            if result.break_line(current, unit, &mut queue, options.wrapping, max_size, Ghost(fit_len)) {
                proof {
                    lemma_cut_short_within(shown_lines(result.lines()), lines1 + shown(before), total);
                }
                return result;
            }
            current = TextLine::new();
            proof {
                reveal(line_in_progress);
                fit_len = 0;
                assert(current.units().take(0) =~= Seq::<Unit<'a, F>>::empty());
                assert(shown(current.units()) == Seq::<char>::empty());
                lemma_break_step(lines1, shown(before), shown(seq![unit]), shown(q1), visible(text.chars().skip(iter.position() as int)), shown_lines(result.lines()), shown(queue@));
            }
        }
    }
}

} // verus!
