use lepton_runtime::layout::{Size, SizeConstraint};
use lepton_runtime::glyph::{BreakKind, Glyph, GlyphSource, Raster, Unit};
use lepton_runtime::render::{TextBody, TextLine};
use lepton_runtime::text::{Direction, RichString, TextOptions, Wrapping};
use lepton_runtime::typeface::{FontStyle, FontWeight, Typeface, Variant, Weight};

/// A monospaced test font: every glyph is `advance` wide, and its one-byte
/// bitmap holds the character it was made for.
struct Mono {
    advance: u32,
}

impl GlyphSource for Mono {
    fn glyph(&self, ch: char, size: usize) -> Glyph {
        Glyph {
            bitmap: vec![ch as u8],
            width: 1,
            height: 1,
            outline_ymin: -2,
            outline_height: size / 2,
            advance: self.advance,
        }
    }
}

fn mono(advance: u32) -> Typeface<Mono> {
    Typeface::new(Variant {
        weight: FontWeight::Normal.into(),
        style: FontStyle::Regular,
        data: Mono { advance },
    })
}

/// The characters a line shows, with `_` for whitespace units.
fn shown(line: &TextLine<'_, Mono>) -> String {
    let mut s = String::new();
    for i in 0..line.len() {
        match &line.unit(i).raster {
            Some(raster) => s.push(raster.bitmap[0] as char),
            None => s.push('_'),
        }
    }
    s
}

fn lines(body: &TextBody<'_, Mono>) -> Vec<String> {
    (0..body.line_count()).map(|i| shown(body.line(i))).collect()
}

fn lay_out(s: &str, wrapping: Wrapping, max_size: SizeConstraint) -> Vec<String> {
    let face = mono(10);
    let text = RichString::new(s.to_string(), &face);
    let options = TextOptions { wrapping, direction: Direction::Horizontal };
    let body = TextBody::layout(text, options, max_size);
    lines(&body)
}

#[test]
fn word_wrap_breaks_at_the_space() {
    let got = lay_out("ab cd", Wrapping::Word, SizeConstraint::intrinsic_width(40));
    assert_eq!(got, vec!["ab".to_string(), "cd".to_string()]);
}

#[test]
fn long_word_falls_back_to_character_wrap() {
    let got = lay_out(
        "supercalifragilisticexpialidocious",
        Wrapping::Word,
        SizeConstraint::intrinsic_width(100),
    );
    assert_eq!(got, vec!["supercalif", "ragilistic", "expialidoc", "ious"]);
    let face = mono(10);
    let text = RichString::new("supercalifragilisticexpialidocious".to_string(), &face);
    let body = TextBody::layout(text, TextOptions::default(), SizeConstraint::intrinsic_width(100));
    assert_eq!(body.line(0).width(), 100);
}

#[test]
fn single_line_truncate_ends_with_ellipsis() {
    let face = mono(10);
    let text = RichString::new("hello world".to_string(), &face);
    let options = TextOptions { wrapping: Wrapping::SingleLineTruncate, direction: Direction::Horizontal };
    let body = TextBody::layout(text, options, SizeConstraint::intrinsic_width(50));
    assert_eq!(body.line_count(), 1);
    assert_eq!(lines(&body), vec!["he..."]);
    assert_eq!(body.line(0).width(), 50);
    assert!(!body.truncation_warning());
}

#[test]
fn single_line_truncates_with_warning() {
    let face = mono(10);
    let text = RichString::new("hello world".to_string(), &face);
    let options = TextOptions { wrapping: Wrapping::SingleLine, direction: Direction::Horizontal };
    let body = TextBody::layout(text, options, SizeConstraint::intrinsic_width(50));
    assert_eq!(body.line_count(), 1);
    assert_eq!(lines(&body), vec!["he..."]);
    assert!(body.truncation_warning());
}

#[test]
fn character_wrap_fills_each_line() {
    let got = lay_out("abcdefg", Wrapping::Character, SizeConstraint::intrinsic_width(30));
    assert_eq!(got, vec!["abc", "def", "g"]);
}

#[test]
fn character_wrap_drops_whitespace_at_line_edges() {
    let got = lay_out("ab  cd e", Wrapping::Character, SizeConstraint::intrinsic_width(30));
    assert_eq!(got, vec!["ab", "cd", "e"]);
}

#[test]
fn leading_and_trailing_whitespace_is_dropped() {
    let got = lay_out("  ab  ", Wrapping::Word, SizeConstraint::auto());
    assert_eq!(got, vec!["ab"]);
}

#[test]
fn whitespace_only_text_gives_an_empty_line() {
    let got = lay_out("   ", Wrapping::Word, SizeConstraint::auto());
    assert_eq!(got, vec![""]);
}

#[test]
fn empty_text_gives_one_empty_line() {
    let got = lay_out("", Wrapping::Character, SizeConstraint::intrinsic_width(10));
    assert_eq!(got, vec![""]);
}

#[test]
fn unbounded_text_stays_on_one_line() {
    let got = lay_out("the quick brown fox", Wrapping::Word, SizeConstraint::auto());
    assert_eq!(got, vec!["the_quick_brown_fox"]);
}

#[test]
fn word_wrap_keeps_words_whole() {
    let got = lay_out("the quick brown fox", Wrapping::Word, SizeConstraint::intrinsic_width(100));
    assert_eq!(got, vec!["the_quick", "brown_fox"]);
}

#[test]
fn punctuation_is_a_word_boundary() {
    let got = lay_out("abc-defgh", Wrapping::Word, SizeConstraint::intrinsic_width(60));
    assert_eq!(got, vec!["abc-", "defgh"]);
}

#[test]
fn glyph_wider_than_the_bound_gets_its_own_line() {
    let got = lay_out("abc", Wrapping::Word, SizeConstraint::auto());
    assert_eq!(got, vec!["abc"]);
    let face = mono(10);
    let text = RichString::new("abc".to_string(), &face);
    let options = TextOptions { wrapping: Wrapping::Character, direction: Direction::Horizontal };
    let body = TextBody::layout(text, options, SizeConstraint::intrinsic_width(5));
    // each glyph takes a line of its own; the body still does not fit, so the
    // last line is truncated and the warning is raised
    assert_eq!(lines(&body), vec!["a", "b", ""]);
    assert!(body.truncation_warning());
}

#[test]
fn height_bound_truncates_with_warning() {
    let face = mono(10);
    let text = RichString::new("abcdefghi".to_string(), &face);
    let max_size = SizeConstraint { width: Some(30), height: Some(40) };
    let body = TextBody::layout(text, TextOptions::default(), max_size);
    assert_eq!(lines(&body), vec!["..."]);
    assert!(body.truncation_warning());
    assert!(body.fits(max_size));
}

#[test]
fn height_bound_keeps_the_lines_that_fit() {
    let face = mono(10);
    let text = RichString::new("abcdefghi".to_string(), &face);
    let max_size = SizeConstraint { width: Some(30), height: Some(64) };
    let body = TextBody::layout(text, TextOptions { wrapping: Wrapping::Character, direction: Direction::Horizontal }, max_size);
    assert_eq!(lines(&body), vec!["abc", "..."]);
    assert!(body.truncation_warning());
    assert!(body.fits(max_size));
}

#[test]
fn ellipsis_that_never_fits_empties_the_line_and_warns() {
    let face = mono(10);
    let text = RichString::new("abcdef".to_string(), &face);
    let options = TextOptions { wrapping: Wrapping::SingleLineTruncate, direction: Direction::Horizontal };
    let body = TextBody::layout(text, options, SizeConstraint::intrinsic_width(20));
    assert_eq!(lines(&body), vec![""]);
    assert!(body.truncation_warning());
}

#[test]
fn fitting_text_is_not_truncated() {
    let face = mono(10);
    let text = RichString::new("abc".to_string(), &face);
    let options = TextOptions { wrapping: Wrapping::SingleLine, direction: Direction::Horizontal };
    let body = TextBody::layout(text, options, SizeConstraint::intrinsic_width(30));
    assert_eq!(lines(&body), vec!["abc"]);
    assert!(!body.truncation_warning());
}

#[test]
fn label_has_one_unit_per_character() {
    let face = mono(7);
    let text = RichString::new("a b\tc ".to_string(), &face);
    let body = TextBody::new_label(text, Direction::Horizontal);
    assert_eq!(body.line_count(), 1);
    assert_eq!(body.line(0).len(), 6);
    assert_eq!(shown(body.line(0)), "a_b_c_");
    assert_eq!(body.line(0).width(), 42);
    assert!(!body.truncation_warning());
}

#[test]
fn label_of_non_ascii_text_counts_characters() {
    let face = mono(3);
    let text = RichString::new("héllo wörld".to_string(), &face);
    let body = TextBody::new_label(text, Direction::Horizontal);
    assert_eq!(body.line(0).len(), 11);
    assert_eq!(body.line(0).height(), 32);
}

#[test]
fn units_are_classified_by_character() {
    let face = mono(5);
    let text = RichString::new("a1 é".to_string(), &face);
    let body = TextBody::new_label(text, Direction::Horizontal);
    let line = body.line(0);
    assert!(line.unit(0).break_kind == BreakKind::Character);
    assert!(line.unit(1).break_kind == BreakKind::WordBoundary);
    assert!(line.unit(2).break_kind == BreakKind::WordBoundary);
    assert!(line.unit(2).is_whitespace());
    assert!(line.unit(3).break_kind == BreakKind::Character);
    assert!(!line.unit(3).is_whitespace());
}

#[test]
fn line_width_tracks_pushes_and_pops() {
    let face = mono(6);
    let text = RichString::new("abcd".to_string(), &face);
    let body = TextBody::new_label(text, Direction::Horizontal);
    assert_eq!(body.line(0).width(), 24);
    let mut line = TextLine::new();
    assert_eq!(line.width(), 0);
    assert!(line.pop().is_none());
    let face = mono(9);
    let text = RichString::new("xy".to_string(), &face);
    let mut iter = text.rich_iter();
    let x = Unit::rasterize(iter.next().unwrap());
    let y = Unit::rasterize(iter.next().unwrap());
    assert!(iter.next().is_none());
    line.push(x);
    line.push(y);
    assert_eq!(line.width(), 18);
    let popped = line.pop().unwrap();
    assert_eq!(popped.width, 9);
    assert_eq!(line.width(), 9);
    assert_eq!(line.len(), 1);
}

#[test]
fn word_split_cancels_on_a_long_final_word() {
    let face = mono(10);
    let text = RichString::new("ab cdefgh".to_string(), &face);
    let mut line = TextLine::new();
    let mut iter = text.rich_iter();
    while let Some(c) = iter.next() {
        line.push(Unit::rasterize(c));
    }
    let (kept, tail) = line.split_at_word_boundary(SizeConstraint::intrinsic_width(90));
    assert_eq!(kept.len(), 9);
    assert!(tail.is_empty());
}

#[test]
fn word_split_keeps_text_before_the_space() {
    let face = mono(10);
    let text = RichString::new("abcdef gh".to_string(), &face);
    let mut line = TextLine::new();
    let mut iter = text.rich_iter();
    while let Some(c) = iter.next() {
        line.push(Unit::rasterize(c));
    }
    let (kept, tail) = line.split_at_word_boundary(SizeConstraint::intrinsic_width(90));
    assert_eq!(shown(&kept), "abcdef");
    assert_eq!(kept.width(), 60);
    assert_eq!(tail.len(), 3);
    assert!(tail[0].is_whitespace());
}

#[test]
fn size_constraint_predicates() {
    let auto = SizeConstraint::auto();
    assert!(auto.fits(Size { width: usize::MAX, height: usize::MAX }));
    let w = SizeConstraint::intrinsic_width(10);
    assert!(w.fits_width(10));
    assert!(!w.fits_width(11));
    assert!(w.fits_height(1000));
    let h = SizeConstraint::intrinsic_height(5);
    assert!(h.fits_height(5));
    assert!(!h.fits_height(6));
    assert!(h.fits_width(1000));
    assert!(!h.fits(Size { width: 0, height: 6 }));
    assert!(h.fits(Size { width: 99, height: 5 }));
}

#[test]
fn raster_offsets_follow_the_outline() {
    let glyph = Glyph { bitmap: vec![1, 2, 3, 4, 5, 6], width: 3, height: 2, outline_ymin: -4, outline_height: 20, advance: 11 };
    let raster = Raster::from_glyph(glyph, 32);
    assert_eq!(raster.baseline, 32);
    assert_eq!(raster.bottom, 36);
    assert_eq!(raster.top, 16);
    assert_eq!(raster.advance, 11);
    assert_eq!(raster.bitmap.len(), raster.bitmap_width * raster.bitmap_height);
}

#[test]
fn weights_are_opentype_classes() {
    let w: Weight = FontWeight::Bold.into();
    assert_eq!(w, 700);
    let w: Weight = FontWeight::Thin.into();
    assert_eq!(w, 100);
    let w: Weight = FontWeight::Black.into();
    assert_eq!(w, 900);
}

#[test]
fn typeface_needs_a_variant() {
    assert!(Typeface::<Mono>::with_variants(Vec::new()).is_none());
    let face = Typeface::with_variants(vec![Variant { weight: 400, style: FontStyle::Italic, data: Mono { advance: 4 } }]).unwrap();
    assert_eq!(face.match_style(700, FontStyle::Regular).advance, 4);
}

#[test]
fn word_wrap_keeps_every_visible_character() {
    let sentence = "Sphinx of black quartz, judge my vow";
    let got = lay_out(sentence, Wrapping::Word, SizeConstraint::intrinsic_width(120));
    assert_eq!(got, vec!["Sphinx_of", "black", "quartz,", "judge_my_vow"]);
    let joined: String = got.concat().chars().filter(|c| *c != '_').collect();
    let expected: String = sentence.chars().filter(|c| !c.is_whitespace()).collect();
    assert_eq!(joined, expected);
}

#[test]
fn unreadable_font_data_is_an_error() {
    let result = Typeface::<fontdue::Font>::try_default(vec![0, 1, 2, 3]);
    assert!(result.is_err());
}

#[test]
fn large_font_sizes_are_accepted() {
    let glyph = Glyph { bitmap: vec![], width: 0, height: 0, outline_ymin: 3, outline_height: 100, advance: 9 };
    let raster = Raster::from_glyph(glyph, 1_000_000);
    assert_eq!(raster.baseline, 1_000_000);
    assert_eq!(raster.bottom, 999_997);
    assert_eq!(raster.top, 999_897);
    let face = mono(4);
    let big = Raster::rasterize(face.match_style(400, FontStyle::Regular), 200_000, 'x');
    assert_eq!(big.advance, 4);
    assert_eq!(big.top, 200_002 - 100_000);
}

#[test]
fn unbounded_layout_keeps_everything_without_warning() {
    let face = mono(10);
    let text = RichString::new(" a b  c ".to_string(), &face);
    let options = TextOptions { wrapping: Wrapping::SingleLineTruncate, direction: Direction::Horizontal };
    let body = TextBody::layout(text, options, SizeConstraint::auto());
    assert_eq!(lines(&body), vec!["a_b__c"]);
    assert!(!body.truncation_warning());
}

#[test]
fn ellipsis_units_are_periods_in_the_dropped_units_font() {
    let face = mono(10);
    let text = RichString::new("hello world".to_string(), &face);
    let options = TextOptions { wrapping: Wrapping::SingleLineTruncate, direction: Direction::Horizontal };
    let body = TextBody::layout(text, options, SizeConstraint::intrinsic_width(50));
    let line = body.line(0);
    for i in 2..5 {
        let unit = line.unit(i);
        assert_eq!(unit.ch, '.');
        assert_eq!(unit.width, unit.raster.as_ref().unwrap().advance);
        assert_eq!(unit.height, 32);
    }
}

#[test]
fn whitespace_classification_matches_std() {
    let face = mono(1);
    let sample = "a\u{85}\u{a0}\u{1680}\u{2003}\u{2028}\u{202f}\u{3000}\u{200b}x\t";
    let text = RichString::new(sample.to_string(), &face);
    let body = TextBody::new_label(text, Direction::Horizontal);
    let line = body.line(0);
    for (i, c) in sample.chars().enumerate() {
        assert_eq!(line.unit(i).is_whitespace(), c.is_whitespace());
    }
}
