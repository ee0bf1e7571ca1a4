//! The application's theme: its alias keys and the registry built from them.

use crate::breakpoint::{joined_at, valid_ranges, BreakpointRange};
use crate::registry::{GlobalRuleView, RegistryView, ThemeRegistry};
use crate::style::{
    color, keyword, length, s, scalar, ExpressionView, Property, Pseudo, ScaleFamily, StyleTerm,
    StyleValue,
};
use crate::values::{hsl, px, ColorValue, Length, Unit};
use vstd::prelude::*;

verus! {

/// Named colors of the application. A theme maps each to a concrete color.
#[derive(Clone, Copy, Debug, PartialEq, Eq, Hash, Structural)]
pub enum Color {
    Background,
    MainText,
    Primary,
    MutedPrimary,
    DarkPrimary,
    MutedSecondary,
    Secondary,
    DarkSecondary,
    Highlight,
}

/// Named breakpoints, narrowest first.
#[derive(Clone, Copy, Debug, PartialEq, Eq, Hash, Structural)]
pub enum Breakpoint {
    ExtraSmall,
    Small,
    Medium,
    Large,
    ExtraLarge,
}

/// The selector of the elements that carry text.
pub const TEXT_ELEMENTS: &'static str = "a,div,p,h1,h2,h3,h4,li,dd,dt,button,label,input";

/// `pixels` as lengths in pixels.
pub open spec fn pixel_lengths(pixels: Seq<u32>) -> Seq<Length> {
    Seq::new(pixels.len(), |i: int| Length { value: pixels[i], unit: Unit::Px })
}

/// A scale of lengths in pixels.
pub fn px_scale(pixels: Vec<u32>) -> (r: Vec<Length>)
    ensures
        r@ == pixel_lengths(pixels@),
{
    let n = pixels.len();
    let mut scale: Vec<Length> = Vec::new();
    let mut i: usize = 0;
    while i < n
        invariant
            n == pixels@.len(),
            0 <= i <= n,
            scale@ == pixel_lengths(pixels@).take(i as int),
        decreases n - i,
    {
        scale.push(px(pixels[i]));
        assert(scale@ =~= pixel_lengths(pixels@).take(i + 1));
        i += 1;
    }
    assert(pixel_lengths(pixels@).take(n as int) =~= pixel_lengths(pixels@));
    scale
}

/// The term for `pixels` pixels.
pub open spec fn px_term(pixels: u32) -> StyleTerm {
    StyleTerm::Literal(StyleValue::Length(Length { value: pixels, unit: Unit::Px }))
}

/// The term for the color with the hex code `code`.
pub open spec fn hex_term(code: u32) -> StyleTerm {
    StyleTerm::Literal(StyleValue::Color(ColorValue::Hex(code)))
}

/// The term for the keyword `word`.
pub open spec fn keyword_term(word: &'static str) -> StyleTerm {
    StyleTerm::Literal(StyleValue::Keyword(word))
}

/// An expression that holds in every state and under every media condition.
pub open spec fn plain(property: Property, term: StyleTerm) -> ExpressionView {
    scalar(property, term, Pseudo::Normal, None)
}

/// The colors of the application's theme: every key has one.
pub open spec fn theme_colors() -> Map<Color, ColorValue> {
    Map::<Color, ColorValue>::empty().insert(Color::Background, ColorValue::Hex(0xFFFFFF)).insert(
        Color::MainText,
        ColorValue::Hex(0x000000),
    ).insert(Color::Primary, ColorValue::Hsl { hue: 100, saturation: 70, lightness: 40 }).insert(
        Color::MutedPrimary,
        ColorValue::Hsl { hue: 100, saturation: 50, lightness: 50 },
    ).insert(Color::Secondary, ColorValue::Hex(0xBBBBBB)).insert(
        Color::MutedSecondary,
        ColorValue::Hex(0xDDDDDD),
    ).insert(Color::Highlight, ColorValue::Hsl { hue: 310, saturation: 70, lightness: 85 }).insert(
        Color::DarkPrimary,
        ColorValue::Hsl { hue: 200, saturation: 70, lightness: 35 },
    ).insert(Color::DarkSecondary, ColorValue::Hsl { hue: 300, saturation: 60, lightness: 20 })
}

/// The breakpoints of the application's theme.
pub open spec fn theme_breakpoints() -> Seq<BreakpointRange> {
    Seq::<BreakpointRange>::empty().push(
        BreakpointRange { name: Breakpoint::ExtraSmall, lower: 0, upper: Some(600) },
    ).push(BreakpointRange { name: Breakpoint::Small, lower: 600, upper: Some(960) }).push(
        BreakpointRange { name: Breakpoint::Medium, lower: 960, upper: Some(1280) },
    ).push(BreakpointRange { name: Breakpoint::Large, lower: 1280, upper: Some(1920) }).push(
        BreakpointRange { name: Breakpoint::ExtraLarge, lower: 1920, upper: None },
    )
}

/// The scales of the application's theme.
pub open spec fn theme_scales() -> Map<ScaleFamily, Seq<Length>> {
    Map::<ScaleFamily, Seq<Length>>::empty().insert(
        ScaleFamily::BorderWidth,
        pixel_lengths(seq![2u32, 4u32, 8u32, 12u32, 16u32, 24u32, 32u32]),
    ).insert(
        ScaleFamily::Space,
        pixel_lengths(seq![2u32, 4u32, 8u32, 12u32, 16u32, 24u32, 32u32]),
    ).insert(ScaleFamily::Size, pixel_lengths(seq![1u32, 2u32, 4u32])).insert(
        ScaleFamily::FontSize,
        pixel_lengths(seq![14u32, 18u32, 20u32, 36u32]),
    )
}

/// The global styles of the application's theme. The text elements get
/// their fonts twice; both styles stay, the later one on top.
pub open spec fn theme_global_styles() -> Seq<GlobalRuleView> {
    Seq::<GlobalRuleView>::empty().push(
        GlobalRuleView {
            selector: "p",
            style: Seq::<ExpressionView>::empty().push(plain(Property::Padding, px_term(24))),
        },
    ).push(
        GlobalRuleView {
            selector: TEXT_ELEMENTS,
            style: Seq::<ExpressionView>::empty().push(
                plain(Property::FontFamily, keyword_term("'Lato',sans-serif")),
            ).push(plain(Property::FontSmoothing, keyword_term("antialiased"))),
        },
    ).push(
        GlobalRuleView {
            selector: "h1",
            style: Seq::<ExpressionView>::empty().push(
                plain(Property::MarginBottom, px_term(24)),
            ).push(plain(Property::Padding, px_term(18))),
        },
    ).push(
        GlobalRuleView {
            selector: TEXT_ELEMENTS,
            style: Seq::<ExpressionView>::empty().push(
                plain(Property::FontFamily, keyword_term("Roboto,sans-serif")),
            ).push(plain(Property::FontSmoothing, keyword_term("antialiased"))),
        },
    ).push(
        GlobalRuleView {
            selector: "body",
            style: Seq::<ExpressionView>::empty().push(
                plain(Property::BackgroundColor, hex_term(0xBBBBBB)),
            ).push(plain(Property::Color, hex_term(0x000000))),
        },
    )
}

/// The application's theme as a mathematical value.
pub open spec fn theme_view() -> RegistryView {
    RegistryView {
        colors: theme_colors(),
        scales: theme_scales(),
        breakpoints: Some(theme_breakpoints()),
        global_styles: theme_global_styles(),
    }
}

/// The breakpoints of the theme make a table, and every color key has a
/// color.
pub proof fn lemma_theme_is_complete()
    ensures
        valid_ranges(theme_breakpoints()),
        forall|key: Color| theme_colors().contains_key(key),
{
    let ranges = theme_breakpoints();
    assert(ranges.len() == 5);
    assert forall|i: int| 0 <= i < ranges.len() - 1 implies #[trigger] joined_at(ranges, i) by {
        if i == 0 {
        } else if i == 1 {
        } else if i == 2 {
        } else {
            assert(i == 3);
        }
    }
}

/// The theme of the application: its colors, its breakpoints, its scales
/// and its global styles.
pub fn theme() -> (r: ThemeRegistry)
    ensures
        r@ == theme_view(),
{
    let registry = ThemeRegistry::build().set_color(
        Color::Background,
        ColorValue::Hex(0xFFFFFF),
    ).set_color(Color::MainText, ColorValue::Hex(0x000000)).set_color(
        Color::Primary,
        hsl(100, 70, 40),
    ).set_color(Color::MutedPrimary, hsl(100, 50, 50)).set_color(
        Color::Secondary,
        ColorValue::Hex(0xBBBBBB),
    ).set_color(Color::MutedSecondary, ColorValue::Hex(0xDDDDDD)).set_color(
        Color::Highlight,
        hsl(310, 70, 85),
    ).set_color(Color::DarkPrimary, hsl(200, 70, 35)).set_color(
        Color::DarkSecondary,
        hsl(300, 60, 20),
    );

    let mut ranges: Vec<BreakpointRange> = Vec::new();
    ranges.push(BreakpointRange { name: Breakpoint::ExtraSmall, lower: 0, upper: Some(600) });
    ranges.push(BreakpointRange { name: Breakpoint::Small, lower: 600, upper: Some(960) });
    ranges.push(BreakpointRange { name: Breakpoint::Medium, lower: 960, upper: Some(1280) });
    ranges.push(BreakpointRange { name: Breakpoint::Large, lower: 1280, upper: Some(1920) });
    ranges.push(BreakpointRange { name: Breakpoint::ExtraLarge, lower: 1920, upper: None });
    proof {
        lemma_theme_is_complete();
        assert(ranges@ =~= theme_breakpoints());
    }
    let registry = registry.set_breakpoints(ranges).unwrap();

    let registry = registry.set_scale(
        ScaleFamily::BorderWidth,
        px_scale(vec![2, 4, 8, 12, 16, 24, 32]),
    ).set_scale(ScaleFamily::Space, px_scale(vec![2, 4, 8, 12, 16, 24, 32])).set_scale(
        ScaleFamily::Size,
        px_scale(vec![1, 2, 4]),
    ).set_scale(ScaleFamily::FontSize, px_scale(vec![14, 18, 20, 36]));

    let registry = registry.add_global_style(
        "p",
        s().set(Property::Padding, length(px(24))),
    ).add_global_style(
        TEXT_ELEMENTS,
        s().set(Property::FontFamily, keyword("'Lato',sans-serif")).set(
            Property::FontSmoothing,
            keyword("antialiased"),
        ),
    ).add_global_style(
        "h1",
        s().set(Property::MarginBottom, length(px(24))).set(Property::Padding, length(px(18))),
    ).add_global_style(
        TEXT_ELEMENTS,
        s().set(Property::FontFamily, keyword("Roboto,sans-serif")).set(
            Property::FontSmoothing,
            keyword("antialiased"),
        ),
    ).add_global_style(
        "body",
        s().set(Property::BackgroundColor, color(ColorValue::Hex(0xBBBBBB))).set(
            Property::Color,
            color(ColorValue::Hex(0x000000)),
        ),
    );
    registry
}

} // verus!
