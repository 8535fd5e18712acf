use vstd::prelude::*;

verus! {

/// A font weight as an OpenType `usWeightClass` value.
pub type Weight = u16;

/// The named OpenType weight classes.
pub enum FontWeight {
    Thin,
    ExtraLight,
    Light,
    Normal,
    Medium,
    SemiBold,
    Bold,
    ExtraBold,
    Black,
}

pub open spec fn weight_class(w: FontWeight) -> Weight {
    match w {
        FontWeight::Thin => 100,
        FontWeight::ExtraLight => 200,
        FontWeight::Light => 300,
        FontWeight::Normal => 400,
        FontWeight::Medium => 500,
        FontWeight::SemiBold => 600,
        FontWeight::Bold => 700,
        FontWeight::ExtraBold => 800,
        FontWeight::Black => 900,
    }
}

/// The OpenType weight class of a named weight.
pub fn weight_of(w: FontWeight) -> (r: Weight)
    ensures
        r == weight_class(w),
{
    match w {
        FontWeight::Thin => 100,
        FontWeight::ExtraLight => 200,
        FontWeight::Light => 300,
        FontWeight::Normal => 400,
        FontWeight::Medium => 500,
        FontWeight::SemiBold => 600,
        FontWeight::Bold => 700,
        FontWeight::ExtraBold => 800,
        FontWeight::Black => 900,
    }
}

impl From<FontWeight> for Weight {
    fn from(value: FontWeight) -> (r: Weight) {
        weight_of(value)
    }
}

impl vstd::std_specs::convert::FromSpecImpl<FontWeight> for Weight {
    open spec fn obeys_from_spec() -> bool {
        true
    }

    open spec fn from_spec(v: FontWeight) -> Weight {
        weight_class(v)
    }
}

/// Analogous to the CSS `font-style` property.
pub enum FontStyle {
    Regular,
    Italic,
}

/// One face of a typeface; `data` is the font that rasterizes it.
pub struct Variant<F> {
    pub weight: Weight,
    pub style: FontStyle,
    pub data: F,
}

/// The message of a font that could not be loaded.
pub struct FontError(pub &'static str);

/// A family of font variants; the first variant is the default one.
pub struct Typeface<F> {
    variants: Vec<Variant<F>>,
}

impl<F> Typeface<F> {
    /// A typeface holds at least one variant.
    pub closed spec fn wf(&self) -> bool {
        self.variants.len() > 0
    }

    /// The font of the default (first) variant.
    pub closed spec fn default_font(&self) -> F
        recommends
            self.wf(),
    {
        self.variants[0].data
    }

    /// A typeface with a single variant.
    pub fn new(variant: Variant<F>) -> (r: Self)
        ensures
            r.wf(),
            r.default_font() == variant.data,
    {
        Typeface { variants: vec![variant] }
    }

    /// A typeface over the given variants, the first being the default;
    /// `None` when there are none.
    pub fn with_variants(variants: Vec<Variant<F>>) -> (r: Option<Self>)
        ensures
            r is Some <==> variants.len() > 0,
            r is Some ==> r->0.wf() && r->0.default_font() == variants[0].data,
    {
        if variants.len() == 0 {
            None
        } else {
            Some(Typeface { variants })
        }
    }

    /// The font for a weight and a style. Every request is answered with the
    /// default variant's font for now.
    pub fn match_style(&self, _weight: Weight, _style: FontStyle) -> (r: &F)
        requires
            self.wf(),
        ensures
            *r == self.default_font(),
    {
        &self.variants[0].data
    }
}

} // verus!
