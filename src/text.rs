use vstd::prelude::*;
use vstd::string::StrSliceExecFns;

use crate::layout::Pixel;
use crate::typeface::{FontStyle, FontWeight, Typeface};

verus! {

/// With [`Wrapping::Word`], the smallest share of the maximum line width, in
/// percent, that word wrapping may leave on a line; below it the line is
/// broken by character instead. This also keeps a word that is several lines
/// long from collapsing every line before it.
pub const WORD_WRAP_LENGTH_THRESHOLD_PERCENT: usize = 50;

/// The size that rich strings are set in.
pub const DEFAULT_TEXT_SIZE: Pixel = 32;

/// How text that is too wide for its space is handled.
#[derive(PartialEq, Eq, Structural, Clone, Copy)]
pub enum Wrapping {
    /// Only a single line; truncation is expected and raises no warning.
    SingleLineTruncate,
    /// Only a single line; truncation raises a warning.
    SingleLine,
    /// Greedy wrapping at word boundaries, falling back to character wrapping
    /// for a line where a word boundary would leave too little.
    Word,
    /// Line breaks may occur between any two characters.
    Character,
}

/// The direction text runs in.
#[derive(PartialEq, Eq, Structural, Clone, Copy)]
pub enum Direction {
    Horizontal,
}

pub struct TextOptions {
    pub wrapping: Wrapping,
    pub direction: Direction,
}

impl Default for TextOptions {
    fn default() -> (r: Self)
        ensures
            r.wrapping == Wrapping::Word,
            r.direction == Direction::Horizontal,
    {
        Self { wrapping: Wrapping::Word, direction: Direction::Horizontal }
    }
}

/// The characters of `s`, in order.
fn chars_of(s: &String) -> (r: Vec<char>)
    ensures
        r@ == s@,
{
    let text = s.as_str();
    let n = text.unicode_len();
    let mut chars: Vec<char> = Vec::new();
    let mut i: usize = 0;
    while i < n
        invariant
            n == text@.len(),
            text@ == s@,
            i <= n,
            chars@ == text@.take(i as int),
        decreases n - i,
    {
        chars.push(text.get_char(i));
        assert(text@.take(i as int + 1) =~= text@.take(i as int).push(text@[i as int]));
        i = i + 1;
    }
    assert(text@.take(n as int) =~= text@);
    chars
}

/// Plain text in a typeface and a size.
pub struct Text<'a, F> {
    pub contents: String,
    pub typeface: &'a Typeface<F>,
    pub size: i32,
}

impl<'a, F> Text<'a, F> {
    pub fn new(contents: String, typeface: &'a Typeface<F>) -> (r: Self)
        ensures
            r.contents == contents,
            r.typeface == typeface,
            r.size == 32,
    {
        Text { contents, typeface, size: 32 }
    }
}

/// Text in a typeface and a size.
pub struct RichString<'a, F> {
    contents: Vec<char>,
    /// The default typeface of the text; a truncation ellipsis is set in it.
    typeface: &'a Typeface<F>,
    size: Pixel,
}

impl<'a, F> RichString<'a, F> {
    pub closed spec fn wf(&self) -> bool {
        self.typeface.wf()
    }

    /// The characters of the text, in order.
    pub closed spec fn chars(&self) -> Seq<char> {
        self.contents@
    }

    /// The font every character is set in.
    pub closed spec fn font(&self) -> F {
        self.typeface.default_font()
    }

    /// The size every character is set in.
    pub closed spec fn size(&self) -> Pixel {
        self.size
    }

    pub fn new(contents: String, typeface: &'a Typeface<F>) -> (r: Self)
        requires
            typeface.wf(),
        ensures
            r.wf(),
            r.chars() == contents@,
            r.font() == typeface.default_font(),
            r.size() == DEFAULT_TEXT_SIZE,
    {
        RichString { contents: chars_of(&contents), typeface, size: DEFAULT_TEXT_SIZE }
    }

    pub fn rich_iter(&self) -> (r: RichIterator<'_, 'a, F>)
        ensures
            r.string() == self,
            r.position() == 0,
    {
        RichIterator { string: self, position: 0 }
    }
}

/// One character of rich text with the font and size it is set in.
pub struct RichChar<'a, F> {
    pub ch: char,
    pub font: &'a F,
    pub size: Pixel,
}

/// Walks a rich string character by character.
pub struct RichIterator<'s, 'a, F> {
    string: &'s RichString<'a, F>,
    position: usize,
}

impl<'s, 'a, F> RichIterator<'s, 'a, F> {
    pub closed spec fn string(&self) -> RichString<'a, F> {
        *self.string
    }

    /// How many characters have been yielded.
    pub closed spec fn position(&self) -> nat {
        self.position as nat
    }

    pub fn next(&mut self) -> (r: Option<RichChar<'a, F>>)
        requires
            old(self).string().wf(),
            old(self).position() <= old(self).string().chars().len(),
        ensures
            final(self).string() == old(self).string(),
            final(self).position() <= final(self).string().chars().len(),
            old(self).position() == old(self).string().chars().len() ==> r is None && *final(self)
                == *old(self),
            old(self).position() < old(self).string().chars().len() ==> {
                &&& final(self).position() == old(self).position() + 1
                &&& r is Some
                &&& r->0.ch == old(self).string().chars()[old(self).position() as int]
                &&& *r->0.font == old(self).string().font()
                &&& r->0.size == old(self).string().size()
            },
    {
        if self.position < self.string.contents.len() {
            let ch = self.string.contents[self.position];
            let font = self.string.typeface.match_style(FontWeight::Normal.into(), FontStyle::Regular);
            self.position = self.position + 1;
            Some(RichChar { ch, font, size: self.string.size })
        } else {
            None
        }
    }
}

} // verus!
