use responsive_engine::app_theme::{px_scale, theme, Breakpoint, Color, TEXT_ELEMENTS};
use responsive_engine::breakpoint::{classify, BreakpointRange};
use responsive_engine::global_styles::{global_init, use_themed_styles, EVERYTHING, RESET_ELEMENTS};
use responsive_engine::markup::{copy_rules, Tag};
use responsive_engine::resolver::{resolve_globals, StyleError, StyleRule};
use responsive_engine::registry::UnknownAliasError;
use responsive_engine::scope::ThemeScope;
use responsive_engine::style::{Property, Pseudo, ScaleFamily, StyleValue};
use responsive_engine::values::{px, ColorValue, Length, Unit};
use responsive_engine::{render, themed_view, view, Model, Msg, HEADING, PARAGRAPH, PARAGRAPHS};

fn pixels(value: u32) -> StyleValue {
    StyleValue::Length(Length { value, unit: Unit::Px })
}

fn plain(property: Property, value: StyleValue) -> StyleRule {
    StyleRule { property, value, breakpoint: None, pseudo: Pseudo::Normal, media: None }
}

#[test]
fn the_theme_has_a_color_for_every_key() {
    let theme = theme();
    let expected = [
        (Color::Background, ColorValue::Hex(0xFFFFFF)),
        (Color::MainText, ColorValue::Hex(0x000000)),
        (Color::Primary, ColorValue::Hsl { hue: 100, saturation: 70, lightness: 40 }),
        (Color::MutedPrimary, ColorValue::Hsl { hue: 100, saturation: 50, lightness: 50 }),
        (Color::DarkPrimary, ColorValue::Hsl { hue: 200, saturation: 70, lightness: 35 }),
        (Color::MutedSecondary, ColorValue::Hex(0xDDDDDD)),
        (Color::Secondary, ColorValue::Hex(0xBBBBBB)),
        (Color::DarkSecondary, ColorValue::Hsl { hue: 300, saturation: 60, lightness: 20 }),
        (Color::Highlight, ColorValue::Hsl { hue: 310, saturation: 70, lightness: 85 }),
    ];
    for (key, value) in expected {
        assert_eq!(theme.resolve_color(key), Ok(value));
    }
}

#[test]
fn the_theme_has_five_breakpoints() {
    let theme = theme();
    let table = theme.breakpoint_table().unwrap();
    assert_eq!(
        table.ranges(),
        &vec![
            BreakpointRange { name: Breakpoint::ExtraSmall, lower: 0, upper: Some(600) },
            BreakpointRange { name: Breakpoint::Small, lower: 600, upper: Some(960) },
            BreakpointRange { name: Breakpoint::Medium, lower: 960, upper: Some(1280) },
            BreakpointRange { name: Breakpoint::Large, lower: 1280, upper: Some(1920) },
            BreakpointRange { name: Breakpoint::ExtraLarge, lower: 1920, upper: None },
        ]
    );
    assert_eq!(classify(1279, table), Ok(2));
    assert_eq!(classify(1280, table), Ok(3));
    assert_eq!(classify(1920, table), Ok(4));
    assert_eq!(table.index_of(Breakpoint::Large), Some(3));
}

#[test]
fn the_theme_has_its_scales() {
    let theme = theme();
    let space = [2, 4, 8, 12, 16, 24, 32];
    for (step, value) in space.iter().enumerate() {
        assert_eq!(theme.resolve_scale_step(ScaleFamily::Space, step), Ok(px(*value)));
        assert_eq!(theme.resolve_scale_step(ScaleFamily::BorderWidth, step), Ok(px(*value)));
    }
    assert!(theme.resolve_scale_step(ScaleFamily::Space, 7).is_err());
    assert_eq!(theme.resolve_scale_step(ScaleFamily::Size, 2), Ok(px(4)));
    assert!(theme.resolve_scale_step(ScaleFamily::Size, 3).is_err());
    assert_eq!(theme.resolve_scale_step(ScaleFamily::FontSize, 3), Ok(px(36)));
    assert_eq!(px_scale(vec![1, 2]), vec![px(1), px(2)]);
    assert_eq!(px_scale(vec![]), vec![]);
}

#[test]
fn the_theme_keeps_both_font_styles_of_the_text_elements() {
    let theme = theme();
    assert_eq!(theme.global_style_count(), 5);
    let selectors: Vec<&str> = theme.global_styles().iter().map(|g| g.selector).collect();
    assert_eq!(selectors, vec!["p", TEXT_ELEMENTS, "h1", TEXT_ELEMENTS, "body"]);
    let root = ThemeScope::root();
    let rules = resolve_globals(theme.global_styles(), &root).unwrap();
    assert_eq!(rules[1].rules[0], plain(Property::FontFamily, StyleValue::Keyword("'Lato',sans-serif")));
    assert_eq!(rules[3].rules[0], plain(Property::FontFamily, StyleValue::Keyword("Roboto,sans-serif")));
    assert_eq!(
        rules[2].rules,
        vec![plain(Property::MarginBottom, pixels(24)), plain(Property::Padding, pixels(18))]
    );
    assert_eq!(
        rules[4].rules,
        vec![
            plain(Property::BackgroundColor, StyleValue::Color(ColorValue::Hex(0xBBBBBB))),
            plain(Property::Color, StyleValue::Color(ColorValue::Hex(0x000000))),
        ]
    );
}

#[test]
fn the_reset_styles_need_no_theme() {
    let rules = global_init();
    let selectors: Vec<&str> = rules.iter().map(|g| g.selector).collect();
    assert_eq!(selectors, vec![RESET_ELEMENTS, "img", EVERYTHING]);
    let root = ThemeScope::root();
    let resolved = resolve_globals(&rules, &root).unwrap();
    assert_eq!(
        resolved[0].rules,
        vec![
            plain(Property::FontFamily, StyleValue::Keyword("'Lato',sans-serif")),
            plain(Property::FontSmoothing, StyleValue::Keyword("antialiased")),
        ]
    );
    assert_eq!(resolved[1].rules, vec![plain(Property::BoxSizing, StyleValue::Keyword("content-box"))]);
    assert_eq!(resolved[2].rules, vec![plain(Property::BoxSizing, StyleValue::Keyword("inherit"))]);
}

#[test]
fn the_themed_styles_need_the_theme() {
    let rules = use_themed_styles();
    assert_eq!(rules.len(), 1);
    assert_eq!(rules[0].selector, "body");
    let root = ThemeScope::root();
    assert_eq!(
        resolve_globals(&rules, &root),
        Err(StyleError::UnknownAlias(UnknownAliasError::Color(Color::Background)))
    );
    let themes = vec![theme()];
    let scope = root.nested(&themes);
    let resolved = resolve_globals(&rules, &scope).unwrap();
    assert_eq!(
        resolved[0].rules,
        vec![plain(Property::BackgroundColor, StyleValue::Color(ColorValue::Hex(0xFFFFFF)))]
    );
}

#[test]
fn the_page_does_not_resolve_without_a_theme() {
    let root = ThemeScope::root();
    assert_eq!(
        themed_view(&Model {}, &root),
        Err(StyleError::UnknownAlias(UnknownAliasError::Color(Color::MutedPrimary)))
    );
    assert_eq!(
        render(&Model {}, &root, &vec![]),
        Err(StyleError::UnknownAlias(UnknownAliasError::Color(Color::Background)))
    );
}

#[test]
fn the_page_is_a_heading_over_eight_paragraphs() {
    let themes = vec![theme()];
    let root = ThemeScope::root();
    let scope = root.nested(&themes);
    let page = themed_view(&Model {}, &scope).unwrap();
    assert_eq!(page.len(), 3 + PARAGRAPHS);
    let shape: Vec<(usize, Tag)> = page.iter().map(|e| (e.depth, e.tag)).collect();
    let mut expected = vec![(0, Tag::Div), (1, Tag::H1), (1, Tag::Div)];
    expected.extend(std::iter::repeat((2, Tag::P)).take(8));
    assert_eq!(shape, expected);
    assert_eq!(page[0].text, "");
    assert!(page[0].rules.is_empty());
    assert_eq!(page[1].text, HEADING);
    assert_eq!(page[1].text, "Welcome to Seed Style");
    assert!(page[3..].iter().all(|p| p.text == PARAGRAPH));
    assert!(PARAGRAPH.starts_with("Lorem ipsum dolor sit amet"));
}

#[test]
fn the_heading_is_styled_by_the_theme() {
    let themes = vec![theme()];
    let root = ThemeScope::root();
    let scope = root.nested(&themes);
    let page = themed_view(&Model {}, &scope).unwrap();
    let muted_primary = ColorValue::Hsl { hue: 100, saturation: 50, lightness: 50 };
    let primary = ColorValue::Hsl { hue: 100, saturation: 70, lightness: 40 };
    assert_eq!(
        page[1].rules,
        vec![
            plain(Property::FontSize, pixels(32)),
            plain(Property::BackgroundColor, StyleValue::Color(muted_primary)),
            plain(Property::BorderLeftWidth, pixels(8)),
            plain(Property::BorderLeftStyle, StyleValue::Keyword("solid")),
            plain(Property::BorderColor, StyleValue::Color(primary)),
            plain(Property::Padding, pixels(24)),
            plain(Property::BorderRadius, pixels(3)),
            plain(Property::MarginLeft, pixels(24)),
            plain(Property::MarginRight, pixels(24)),
            plain(Property::MarginTop, pixels(12)),
            plain(Property::MarginBottom, pixels(12)),
        ]
    );
    assert_eq!(
        page[2].rules,
        vec![
            plain(Property::ColumnCount, StyleValue::Number(3)),
            plain(Property::ColumnWidth, pixels(250)),
            plain(Property::PaddingLeft, pixels(24)),
            plain(Property::PaddingRight, pixels(24)),
            plain(Property::PaddingTop, pixels(12)),
            plain(Property::PaddingBottom, pixels(12)),
        ]
    );
}

#[test]
fn a_paragraph_is_tinted_while_hovered() {
    let themes = vec![theme()];
    let root = ThemeScope::root();
    let scope = root.nested(&themes);
    let page = themed_view(&Model {}, &scope).unwrap();
    let hovered = |property, value| StyleRule {
        property,
        value,
        breakpoint: None,
        pseudo: Pseudo::Hover,
        media: None,
    };
    let expected = vec![
        plain(Property::Padding, pixels(3)),
        plain(Property::MarginTop, pixels(12)),
        plain(Property::MarginBottom, pixels(12)),
        hovered(Property::BackgroundColor, StyleValue::Color(ColorValue::Hex(0xDDDDDD))),
        hovered(Property::BorderRadius, pixels(4)),
    ];
    for paragraph in &page[3..] {
        assert_eq!(paragraph.rules, expected);
    }
    assert_eq!(copy_rules(&expected), expected);
}

#[test]
fn the_view_renders_the_page_with_all_global_styles() {
    let rendered = view(&Model {}).unwrap();
    assert_eq!(rendered.elements.len(), 11);
    let selectors: Vec<&str> = rendered.globals.iter().map(|g| g.selector).collect();
    assert_eq!(selectors, vec!["p", TEXT_ELEMENTS, "h1", TEXT_ELEMENTS, "body", "body"]);
    assert_eq!(
        rendered.globals[5].rules,
        vec![plain(Property::BackgroundColor, StyleValue::Color(ColorValue::Hex(0xFFFFFF)))]
    );
    let themes = vec![theme()];
    let root = ThemeScope::root();
    let scope = root.nested(&themes);
    assert_eq!(rendered.elements, themed_view(&Model {}, &scope).unwrap());
    assert_eq!(Ok(rendered), render(&Model {}, &scope, themes[0].global_styles()));
}

#[test]
fn a_resize_is_the_only_message() {
    let msg = Msg::WindowResized;
    assert_eq!(msg.clone(), Msg::WindowResized);
}
