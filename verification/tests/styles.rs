use responsive_engine::app_theme::{Breakpoint, Color};
use responsive_engine::breakpoint::{BreakpointRange, BreakpointTable, ConfigError, PairDefect};
use responsive_engine::media::{condition, push_decimal, range_query};
use responsive_engine::registry::{ScaleIndexError, ThemeRegistry, UnknownAliasError};
use responsive_engine::resolver::{
    expand, resolve, resolve_globals, resolve_style, spread, StyleError, StyleRule,
};
use responsive_engine::scope::{activate_theme, ThemeScope};
use responsive_engine::style::{
    alias, color, keyword, length, number, s, scale_step, Property, Pseudo, ScaleFamily, Style,
    StyleExpression, StyleTerm, StyleValue, StyleValues,
};
use responsive_engine::values::{em, hsl, px, rem, rgb, ColorValue, Length, Unit};

fn range(name: Breakpoint, lower: u32, upper: Option<u32>) -> BreakpointRange {
    BreakpointRange { name, lower, upper }
}

fn three_ranges() -> Vec<BreakpointRange> {
    vec![
        range(Breakpoint::ExtraSmall, 0, Some(600)),
        range(Breakpoint::Small, 600, Some(960)),
        range(Breakpoint::Medium, 960, None),
    ]
}

fn responsive_theme() -> ThemeRegistry {
    ThemeRegistry::build()
        .set_color(Color::Primary, ColorValue::Hex(0x112233))
        .set_scale(ScaleFamily::Space, vec![px(2), px(4), px(8)])
        .set_breakpoints(three_ranges())
        .unwrap()
}

fn font_sizes(pixels: &[u32]) -> StyleExpression {
    StyleExpression {
        property: Property::FontSize,
        values: StyleValues::PerBreakpoint(pixels.iter().map(|p| length(px(*p))).collect()),
        pseudo: Pseudo::Normal,
        media: None,
    }
}

fn pixels(value: u32) -> StyleValue {
    StyleValue::Length(Length { value, unit: Unit::Px })
}

#[test]
fn lengths_and_colors_are_what_they_are_made_of() {
    assert_eq!(px(32), Length { value: 32, unit: Unit::Px });
    assert_eq!(rem(2), Length { value: 2, unit: Unit::Rem });
    assert_eq!(em(3), Length { value: 3, unit: Unit::Em });
    assert_eq!(hsl(310, 70, 85), ColorValue::Hsl { hue: 310, saturation: 70, lightness: 85 });
    assert_eq!(rgb(1, 2, 3), ColorValue::Rgb { red: 1, green: 2, blue: 3 });
}

#[test]
fn an_empty_registry_fails_closed() {
    let registry = ThemeRegistry::build();
    assert_eq!(
        registry.resolve_color(Color::Background),
        Err(UnknownAliasError::Color(Color::Background))
    );
    assert_eq!(
        registry.resolve_scale_step(ScaleFamily::Space, 0),
        Err(ScaleIndexError { family: ScaleFamily::Space, step: 0, len: 0 })
    );
    assert!(registry.breakpoint_table().is_none());
    assert_eq!(registry.global_style_count(), 0);
    assert!(!registry.has_scale(ScaleFamily::Space));
}

#[test]
fn a_color_resolves_to_what_was_set_last() {
    let registry = ThemeRegistry::build()
        .set_color(Color::Primary, ColorValue::Hex(1))
        .set_color(Color::Secondary, ColorValue::Hex(2))
        .set_color(Color::Primary, ColorValue::Hex(3));
    assert_eq!(registry.resolve_color(Color::Primary), Ok(ColorValue::Hex(3)));
    assert_eq!(registry.resolve_color(Color::Secondary), Ok(ColorValue::Hex(2)));
    assert_eq!(
        registry.resolve_color(Color::Highlight),
        Err(UnknownAliasError::Color(Color::Highlight))
    );
}

#[test]
fn a_scale_step_resolves_within_its_scale_only() {
    let registry = ThemeRegistry::build()
        .set_scale(ScaleFamily::FontSize, vec![px(14), px(18), px(20), px(36)])
        .set_scale(ScaleFamily::Size, vec![px(1)]);
    assert!(registry.has_scale(ScaleFamily::FontSize));
    assert_eq!(registry.resolve_scale_step(ScaleFamily::FontSize, 0), Ok(px(14)));
    assert_eq!(registry.resolve_scale_step(ScaleFamily::FontSize, 3), Ok(px(36)));
    assert_eq!(
        registry.resolve_scale_step(ScaleFamily::FontSize, 4),
        Err(ScaleIndexError { family: ScaleFamily::FontSize, step: 4, len: 4 })
    );
    assert_eq!(
        registry.resolve_scale_step(ScaleFamily::Size, 1),
        Err(ScaleIndexError { family: ScaleFamily::Size, step: 1, len: 1 })
    );
    let replaced = registry.set_scale(ScaleFamily::Size, vec![px(5), px(6)]);
    assert_eq!(replaced.resolve_scale_step(ScaleFamily::Size, 1), Ok(px(6)));
}

#[test]
fn malformed_breakpoints_keep_the_registry_from_being_built() {
    let r = ThemeRegistry::build().set_breakpoints(vec![
        range(Breakpoint::ExtraSmall, 0, Some(600)),
        range(Breakpoint::Small, 650, None),
    ]);
    assert_eq!(r.err(), Some(ConfigError::Pair { left: 0, defect: PairDefect::Gap }));
    let ok = ThemeRegistry::build().set_breakpoints(three_ranges()).unwrap();
    assert_eq!(ok.breakpoint_table().unwrap().len(), 3);
}

#[test]
fn global_styles_are_appended_not_merged() {
    let registry = ThemeRegistry::build()
        .add_global_style("p", s().set(Property::Padding, length(px(1))))
        .add_global_style("h1", s().set(Property::Padding, length(px(2))))
        .add_global_style("p", s().set(Property::Padding, length(px(3))));
    assert_eq!(registry.global_style_count(), 3);
    assert_eq!(registry.global_style(0).unwrap().selector, "p");
    assert_eq!(registry.global_style(1).unwrap().selector, "h1");
    assert_eq!(registry.global_style(2).unwrap().selector, "p");
    assert!(registry.global_style(3).is_none());
    let root = ThemeScope::root();
    let resolved = resolve_globals(registry.global_styles(), &root).unwrap();
    assert_eq!(resolved.len(), 3);
    assert_eq!(resolved[0].rules[0].value, pixels(1));
    assert_eq!(resolved[2].rules[0].value, pixels(3));
}

#[test]
fn a_scalar_resolves_to_one_unconditional_rule() {
    let themes = vec![responsive_theme()];
    let root = ThemeScope::root();
    let scope = root.nested(&themes);
    let expr = StyleExpression {
        property: Property::FontSize,
        values: StyleValues::Scalar(length(px(32))),
        pseudo: Pseudo::Normal,
        media: None,
    };
    assert_eq!(
        resolve(&expr, &scope),
        Ok(vec![StyleRule {
            property: Property::FontSize,
            value: pixels(32),
            breakpoint: None,
            pseudo: Pseudo::Normal,
            media: None,
        }])
    );
}

#[test]
fn three_values_over_three_breakpoints_give_three_guarded_rules() {
    let themes = vec![responsive_theme()];
    let root = ThemeScope::root();
    let scope = root.nested(&themes);
    let rules = resolve(&font_sizes(&[18, 24, 32]), &scope).unwrap();
    let ranges = three_ranges();
    assert_eq!(rules.len(), 3);
    for (i, expected) in [18, 24, 32].iter().enumerate() {
        assert_eq!(rules[i].property, Property::FontSize);
        assert_eq!(rules[i].value, pixels(*expected));
        assert_eq!(rules[i].breakpoint, Some(ranges[i]));
    }
}

#[test]
fn two_values_over_three_breakpoints_fill_the_third_with_the_second() {
    let themes = vec![responsive_theme()];
    let root = ThemeScope::root();
    let scope = root.nested(&themes);
    let rules = resolve(&font_sizes(&[18, 24]), &scope).unwrap();
    let ranges = three_ranges();
    assert_eq!(rules.len(), 3);
    assert_eq!(rules[0].value, pixels(18));
    assert_eq!(rules[1].value, pixels(24));
    assert_eq!(rules[2].value, pixels(24));
    assert_eq!(rules[2].breakpoint, Some(ranges[2]));
}

#[test]
fn one_value_over_three_breakpoints_fills_them_all() {
    let table = BreakpointTable::new(three_ranges()).unwrap();
    let rules =
        spread(Property::Padding, &vec![pixels(7)], &table, Pseudo::Normal, None).unwrap();
    assert_eq!(rules.len(), 3);
    assert!(rules.iter().all(|r| r.value == pixels(7)));
    assert_eq!(rules[0].breakpoint.unwrap().lower, 0);
    assert_eq!(rules[1].breakpoint.unwrap().lower, 600);
    assert_eq!(rules[2].breakpoint.unwrap().lower, 960);
}

#[test]
fn pseudo_state_and_media_go_beside_the_breakpoint() {
    let themes = vec![responsive_theme()];
    let root = ThemeScope::root();
    let scope = root.nested(&themes);
    let expr = StyleExpression {
        property: Property::Color,
        values: StyleValues::PerBreakpoint(vec![alias(Color::Primary)]),
        pseudo: Pseudo::Hover,
        media: Some("print"),
    };
    let rules = resolve(&expr, &scope).unwrap();
    let ranges = three_ranges();
    assert_eq!(rules.len(), 3);
    for (i, rule) in rules.iter().enumerate() {
        assert_eq!(rule.value, StyleValue::Color(ColorValue::Hex(0x112233)));
        assert_eq!(rule.breakpoint, Some(ranges[i]));
        assert_eq!(rule.pseudo, Pseudo::Hover);
        assert_eq!(rule.media, Some("print"));
    }
}

#[test]
fn a_sequence_without_values_does_not_resolve() {
    let themes = vec![responsive_theme()];
    let root = ThemeScope::root();
    let scope = root.nested(&themes);
    assert_eq!(resolve(&font_sizes(&[]), &scope), Err(StyleError::NoValues));
    let table = BreakpointTable::new(three_ranges()).unwrap();
    assert_eq!(
        spread(Property::Padding, &vec![], &table, Pseudo::Normal, None),
        Err(StyleError::NoValues)
    );
}

#[test]
fn a_sequence_needs_a_breakpoint_table() {
    let themes = vec![ThemeRegistry::build()];
    let root = ThemeScope::root();
    let scope = root.nested(&themes);
    assert_eq!(resolve(&font_sizes(&[18, 24]), &scope), Err(StyleError::NoBreakpoints));
    assert_eq!(resolve(&font_sizes(&[18, 24]), &root), Err(StyleError::NoBreakpoints));
}

#[test]
fn a_sequence_longer_than_the_table_does_not_resolve() {
    let themes = vec![responsive_theme()];
    let root = ThemeScope::root();
    let scope = root.nested(&themes);
    assert_eq!(
        resolve(&font_sizes(&[1, 2, 3, 4]), &scope),
        Err(StyleError::TooManyValues { given: 4, breakpoints: 3 })
    );
}

#[test]
fn an_unknown_alias_is_an_error_not_a_default() {
    let themes = vec![responsive_theme()];
    let root = ThemeScope::root();
    let scope = root.nested(&themes);
    assert_eq!(
        expand(&scope, alias(Color::Highlight)),
        Err(StyleError::UnknownAlias(UnknownAliasError::Color(Color::Highlight)))
    );
    assert_eq!(
        expand(&scope, scale_step(ScaleFamily::Space, 3)),
        Err(StyleError::ScaleIndex(ScaleIndexError {
            family: ScaleFamily::Space,
            step: 3,
            len: 3
        }))
    );
    assert_eq!(
        expand(&scope, scale_step(ScaleFamily::FontSize, 0)),
        Err(StyleError::ScaleIndex(ScaleIndexError {
            family: ScaleFamily::FontSize,
            step: 0,
            len: 0
        }))
    );
}

#[test]
fn aliases_expand_to_what_the_theme_gives_them() {
    let themes = vec![responsive_theme()];
    let root = ThemeScope::root();
    let scope = root.nested(&themes);
    assert_eq!(
        expand(&scope, alias(Color::Primary)),
        Ok(StyleValue::Color(ColorValue::Hex(0x112233)))
    );
    assert_eq!(expand(&scope, scale_step(ScaleFamily::Space, 2)), Ok(pixels(8)));
    assert_eq!(expand(&scope, number(3)), Ok(StyleValue::Number(3)));
    assert_eq!(expand(&scope, keyword("solid")), Ok(StyleValue::Keyword("solid")));
    assert_eq!(
        expand(&scope, color(ColorValue::Hex(5))),
        Ok(StyleValue::Color(ColorValue::Hex(5)))
    );
    assert_eq!(expand(&scope, StyleTerm::Literal(pixels(9))), Ok(pixels(9)));
}

#[test]
fn a_style_resolves_in_the_order_it_was_written() {
    let themes = vec![responsive_theme()];
    let root = ThemeScope::root();
    let scope = root.nested(&themes);
    let style = s()
        .set(Property::Padding, length(px(3)))
        .margin_y(length(px(12)))
        .hover()
        .set(Property::BackgroundColor, alias(Color::Primary))
        .media("print")
        .set_each(Property::FontSize, vec![length(px(10)), length(px(20))]);
    assert_eq!(style.len(), 5);
    let rules = resolve_style(&style, &scope).unwrap();
    let properties: Vec<Property> = rules.iter().map(|r| r.property).collect();
    assert_eq!(
        properties,
        vec![
            Property::Padding,
            Property::MarginTop,
            Property::MarginBottom,
            Property::BackgroundColor,
            Property::FontSize,
            Property::FontSize,
            Property::FontSize,
        ]
    );
    assert_eq!(rules[0].pseudo, Pseudo::Normal);
    assert_eq!(rules[3].pseudo, Pseudo::Hover);
    assert_eq!(rules[3].media, None);
    assert_eq!(rules[4].media, Some("print"));
    assert_eq!(rules[6].value, pixels(20));
}

#[test]
fn the_first_expression_that_fails_gives_the_error() {
    let themes = vec![responsive_theme()];
    let root = ThemeScope::root();
    let scope = root.nested(&themes);
    let style = s()
        .set(Property::Padding, length(px(3)))
        .set(Property::Color, alias(Color::Highlight))
        .set(Property::Margin, scale_step(ScaleFamily::Space, 9));
    assert_eq!(
        resolve_style(&style, &scope),
        Err(StyleError::UnknownAlias(UnknownAliasError::Color(Color::Highlight)))
    );
}

#[test]
fn resolution_is_the_same_every_time() {
    let themes = vec![responsive_theme()];
    let root = ThemeScope::root();
    let scope = root.nested(&themes);
    let style = s().padding_x(scale_step(ScaleFamily::Space, 1)).padding_y(length(px(1)));
    let first = resolve_style(&style, &scope);
    let unrelated = resolve(&font_sizes(&[1, 2, 3]), &scope);
    let second = resolve_style(&style, &scope);
    assert!(unrelated.is_ok());
    assert_eq!(first, second);
    assert_eq!(first.unwrap().len(), 4);
}

#[test]
fn a_style_builder_keeps_what_it_was_given() {
    let style = Style::new().pseudo(Pseudo::Focus).margin_x(length(px(24)));
    assert_eq!(style.len(), 2);
    let first = style.get(0).unwrap();
    assert_eq!(first.property, Property::MarginLeft);
    assert_eq!(first.pseudo, Pseudo::Focus);
    assert_eq!(first.values, StyleValues::Scalar(length(px(24))));
    assert_eq!(style.get(1).unwrap().property, Property::MarginRight);
    assert!(style.get(2).is_none());
}

#[test]
fn numbers_are_written_in_decimal() {
    for (n, text) in [(0u32, "0"), (7, "7"), (10, "10"), (959, "959"), (u32::MAX, "4294967295")] {
        let mut out = String::from("w=");
        push_decimal(&mut out, n);
        assert_eq!(out, format!("w={}", text));
    }
    for n in (0..100_000u32).step_by(37) {
        let mut out = String::new();
        push_decimal(&mut out, n);
        assert_eq!(out, n.to_string());
    }
}

#[test]
fn a_range_becomes_a_media_condition() {
    assert_eq!(
        range_query(&range(Breakpoint::Small, 600, Some(960))),
        "(min-width: 600px) and (max-width: 959px)"
    );
    assert_eq!(range_query(&range(Breakpoint::Medium, 960, None)), "(min-width: 960px)");
    assert_eq!(
        range_query(&range(Breakpoint::ExtraSmall, 0, Some(600))),
        "(min-width: 0px) and (max-width: 599px)"
    );
    assert_eq!(range_query(&range(Breakpoint::ExtraSmall, 0, Some(0))), "not all");
}

#[test]
fn a_rule_is_guarded_by_its_breakpoint_and_its_media() {
    let mut rule = StyleRule {
        property: Property::FontSize,
        value: pixels(18),
        breakpoint: None,
        pseudo: Pseudo::Normal,
        media: None,
    };
    assert_eq!(condition(&rule), None);
    rule.breakpoint = Some(range(Breakpoint::Small, 600, Some(960)));
    assert_eq!(
        condition(&rule),
        Some(String::from("@media (min-width: 600px) and (max-width: 959px)"))
    );
    rule.media = Some("print");
    assert_eq!(
        condition(&rule),
        Some(String::from("@media (min-width: 600px) and (max-width: 959px) and print"))
    );
    rule.breakpoint = None;
    assert_eq!(condition(&rule), Some(String::from("@media print")));
}

#[test]
fn an_inner_theme_overrides_the_outer_one() {
    let a = vec![ThemeRegistry::build()
        .set_color(Color::Primary, ColorValue::Hex(0xA))
        .set_color(Color::Secondary, ColorValue::Hex(0xAA))];
    let b = vec![ThemeRegistry::build().set_color(Color::Primary, ColorValue::Hex(0xB))];
    let root = ThemeScope::root();
    let outer = root.nested(&a);
    assert_eq!(outer.resolve_color(Color::Primary), Ok(ColorValue::Hex(0xA)));
    let inside = activate_theme(&outer, &b, |inner| {
        (inner.resolve_color(Color::Primary), inner.resolve_color(Color::Secondary))
    });
    assert_eq!(inside.0, Ok(ColorValue::Hex(0xB)));
    assert_eq!(inside.1, Ok(ColorValue::Hex(0xAA)));
    assert_eq!(outer.resolve_color(Color::Primary), Ok(ColorValue::Hex(0xA)));
    assert_eq!(outer.resolve_color(Color::Secondary), Ok(ColorValue::Hex(0xAA)));
}

#[test]
fn a_failing_subtree_leaks_no_theme() {
    let a = vec![ThemeRegistry::build().set_color(Color::Primary, ColorValue::Hex(0xA))];
    let b = vec![ThemeRegistry::build().set_color(Color::Primary, ColorValue::Hex(0xB))];
    let root = ThemeScope::root();
    let outer = root.nested(&a);
    let failed: Result<ColorValue, UnknownAliasError> = activate_theme(&outer, &b, |inner| {
        let seen = inner.resolve_color(Color::Primary)?;
        assert_eq!(seen, ColorValue::Hex(0xB));
        inner.resolve_color(Color::Highlight)
    });
    assert_eq!(failed, Err(UnknownAliasError::Color(Color::Highlight)));
    assert_eq!(outer.resolve_color(Color::Primary), Ok(ColorValue::Hex(0xA)));
    let sibling = activate_theme(&outer, &vec![], |inner| inner.resolve_color(Color::Primary));
    assert_eq!(sibling, Ok(ColorValue::Hex(0xA)));
}

#[test]
fn the_first_theme_of_a_list_is_the_most_specific() {
    let themes = vec![
        ThemeRegistry::build().set_color(Color::Primary, ColorValue::Hex(1)),
        ThemeRegistry::build()
            .set_color(Color::Primary, ColorValue::Hex(2))
            .set_color(Color::Secondary, ColorValue::Hex(3))
            .set_scale(ScaleFamily::Space, vec![px(4)])
            .set_breakpoints(three_ranges())
            .unwrap(),
    ];
    let root = ThemeScope::root();
    let scope = root.nested(&themes);
    assert_eq!(scope.resolve_color(Color::Primary), Ok(ColorValue::Hex(1)));
    assert_eq!(scope.resolve_color(Color::Secondary), Ok(ColorValue::Hex(3)));
    assert_eq!(scope.resolve_scale_step(ScaleFamily::Space, 0), Ok(px(4)));
    assert_eq!(scope.breakpoints().unwrap().len(), 3);
    assert!(root.breakpoints().is_none());
    assert_eq!(
        root.resolve_color(Color::Primary),
        Err(UnknownAliasError::Color(Color::Primary))
    );
}

#[test]
fn three_nested_themes_unwind_in_order() {
    let a = vec![ThemeRegistry::build().set_color(Color::Primary, ColorValue::Hex(1))];
    let b = vec![ThemeRegistry::build().set_color(Color::Primary, ColorValue::Hex(2))];
    let c = vec![ThemeRegistry::build().set_color(Color::Primary, ColorValue::Hex(3))];
    let root = ThemeScope::root();
    let seen = activate_theme(&root, &a, |sa| {
        let before = sa.resolve_color(Color::Primary);
        let within = activate_theme(sa, &b, |sb| {
            let before_c = sb.resolve_color(Color::Primary);
            let in_c = activate_theme(sb, &c, |sc| sc.resolve_color(Color::Primary));
            let after_c = sb.resolve_color(Color::Primary);
            (before_c, in_c, after_c)
        });
        let after = sa.resolve_color(Color::Primary);
        (before, within, after)
    });
    assert_eq!(seen.0, Ok(ColorValue::Hex(1)));
    assert_eq!((seen.1).0, Ok(ColorValue::Hex(2)));
    assert_eq!((seen.1).1, Ok(ColorValue::Hex(3)));
    assert_eq!((seen.1).2, Ok(ColorValue::Hex(2)));
    assert_eq!(seen.2, Ok(ColorValue::Hex(1)));
}
