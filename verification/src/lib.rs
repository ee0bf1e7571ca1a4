//! A responsive rendering and retained state engine, together with the theme
//! and page of the small application built on it.

pub mod app_theme;
pub mod breakpoint;
pub mod css;
pub mod gate;
pub mod global_styles;
pub mod markup;
pub mod media;
pub mod optimizer;
pub mod registry;
pub mod resolver;
pub mod scope;
pub mod store;
pub mod style;
pub mod values;

use crate::app_theme::{
    lemma_theme_is_complete, plain, px_term, theme, theme_global_styles, theme_view, Color,
};
use crate::global_styles::{themed_styles, use_themed_styles};
use crate::markup::{copy_rules, element_views, Element, ElementView, Tag};
use crate::registry::{GlobalRule, GlobalRuleView, RegistryView, ThemeRegistry};
use crate::registry::global_rule_views;
use crate::resolver::{
    all_plain, defines_all_colors, is_plain, lemma_plain_globals_resolve,
    lemma_plain_style_resolves, resolve_globals, resolve_style, resolved_all, resolved_globals,
    selector_rules_views, SelectorRules, SelectorRulesView, StyleError, StyleRule,
};
use crate::scope::{activate_theme, registry_views, ThemeScope};
use crate::style::{
    alias, keyword, length, number, s, scalar, ExpressionView, Property, Pseudo, Style, StyleTerm,
    StyleValue,
};
use crate::values::px;
use vstd::prelude::*;

verus! {

/// The state of the application. The page shows nothing that changes.
#[derive(Debug)]
pub struct Model {}

/// What can happen to the application.
#[derive(Clone, Copy, Debug, PartialEq, Eq)]
pub enum Msg {
    /// The window has a new size.
    WindowResized,
}

/// The text of the heading.
pub const HEADING: &'static str = "Welcome to Seed Style";

/// The text of each paragraph.
pub const PARAGRAPH: &'static str =
    "Lorem ipsum dolor sit amet, consectetur adipiscing elit, sed do eiusmod tempor incididunt ut labore et dolore magna aliqua. Ut enim ad minim veniam, quis nostrud exercitation ullamco laboris nisi ut aliquip ex ea commodo consequat. Duis aute irure dolor in reprehenderit in voluptate velit esse cillum dolore eu fugiat nulla pariatur. Excepteur sint occaecat cupidatat non proident, sunt in culpa qui officia deserunt mollit anim id est laborum";

/// The number of paragraphs on the page.
pub const PARAGRAPHS: usize = 8;

/// The style of the heading.
pub open spec fn heading_style() -> Seq<ExpressionView> {
    Seq::<ExpressionView>::empty().push(plain(Property::FontSize, px_term(32))).push(
        plain(Property::BackgroundColor, StyleTerm::ColorAlias(Color::MutedPrimary)),
    ).push(plain(Property::BorderLeftWidth, px_term(8))).push(
        plain(Property::BorderLeftStyle, StyleTerm::Literal(StyleValue::Keyword("solid"))),
    ).push(plain(Property::BorderColor, StyleTerm::ColorAlias(Color::Primary))).push(
        plain(Property::Padding, px_term(24)),
    ).push(plain(Property::BorderRadius, px_term(3))).push(
        plain(Property::MarginLeft, px_term(24)),
    ).push(plain(Property::MarginRight, px_term(24))).push(
        plain(Property::MarginTop, px_term(12)),
    ).push(plain(Property::MarginBottom, px_term(12)))
}

/// The style of the block that sets the paragraphs in columns.
pub open spec fn columns_style() -> Seq<ExpressionView> {
    Seq::<ExpressionView>::empty().push(
        plain(Property::ColumnCount, StyleTerm::Literal(StyleValue::Number(3))),
    ).push(plain(Property::ColumnWidth, px_term(250))).push(
        plain(Property::PaddingLeft, px_term(24)),
    ).push(plain(Property::PaddingRight, px_term(24))).push(
        plain(Property::PaddingTop, px_term(12)),
    ).push(plain(Property::PaddingBottom, px_term(12)))
}

/// The style of a paragraph: spacing always, a tinted rounded background
/// while the pointer is over it.
pub open spec fn paragraph_style() -> Seq<ExpressionView> {
    Seq::<ExpressionView>::empty().push(plain(Property::Padding, px_term(3))).push(
        plain(Property::MarginTop, px_term(12)),
    ).push(plain(Property::MarginBottom, px_term(12))).push(
        scalar(
            Property::BackgroundColor,
            StyleTerm::ColorAlias(Color::MutedSecondary),
            Pseudo::Hover,
            None,
        ),
    ).push(scalar(Property::BorderRadius, px_term(4), Pseudo::Hover, None))
}

/// The elements of the page, given the rules of its three styles: a block
/// that holds the heading and the block of columns, which holds the
/// paragraphs.
pub open spec fn page_elements(
    heading: Seq<StyleRule>,
    columns: Seq<StyleRule>,
    paragraph: Seq<StyleRule>,
) -> Seq<ElementView> {
    Seq::<ElementView>::empty().push(
        ElementView { depth: 0, tag: Tag::Div, rules: Seq::empty(), text: "" },
    ).push(ElementView { depth: 1, tag: Tag::H1, rules: heading, text: HEADING }).push(
        ElementView { depth: 1, tag: Tag::Div, rules: columns, text: "" },
    ) + Seq::new(
        PARAGRAPHS as nat,
        |i: int| ElementView { depth: 2, tag: Tag::P, rules: paragraph, text: PARAGRAPH },
    )
}

/// The page under `themes`, or the error of the first of its styles that
/// does not resolve.
pub open spec fn themed_page(themes: Seq<RegistryView>) -> Result<Seq<ElementView>, StyleError> {
    match resolved_all(themes, heading_style()) {
        Err(e) => Err(e),
        Ok(heading) => match resolved_all(themes, columns_style()) {
            Err(e) => Err(e),
            Ok(columns) => match resolved_all(themes, paragraph_style()) {
                Err(e) => Err(e),
                Ok(paragraph) => Ok(page_elements(heading, columns, paragraph)),
            },
        },
    }
}

fn heading() -> (r: Style)
    ensures
        r@ == heading_style(),
{
    s().set(Property::FontSize, length(px(32))).set(
        Property::BackgroundColor,
        alias(Color::MutedPrimary),
    ).set(Property::BorderLeftWidth, length(px(8))).set(
        Property::BorderLeftStyle,
        keyword("solid"),
    ).set(Property::BorderColor, alias(Color::Primary)).set(
        Property::Padding,
        length(px(24)),
    ).set(Property::BorderRadius, length(px(3))).margin_x(length(px(24))).margin_y(length(px(12)))
}

fn columns() -> (r: Style)
    ensures
        r@ == columns_style(),
{
    s().set(Property::ColumnCount, number(3)).set(Property::ColumnWidth, length(px(250))).padding_x(
        length(px(24)),
    ).padding_y(length(px(12)))
}

fn paragraph() -> (r: Style)
    ensures
        r@ == paragraph_style(),
{
    s().set(Property::Padding, length(px(3))).margin_y(length(px(12))).hover().set(
        Property::BackgroundColor,
        alias(Color::MutedSecondary),
    ).set(Property::BorderRadius, length(px(4)))
}

/// The page: a heading over eight paragraphs set in columns, styled by the
/// themes that are active in `scope`.
pub fn themed_view(_model: &Model, scope: &ThemeScope) -> (r: Result<Vec<Element>, StyleError>)
    ensures
        match themed_page(scope.active()) {
            Ok(page) => r is Ok && element_views(r->Ok_0@) == page,
            Err(e) => r is Err && r->Err_0 == e,
        },
{
    let heading_rules = match resolve_style(&heading(), scope) {
        Ok(rules) => rules,
        Err(e) => {
            return Err(e);
        },
    };
    let columns_rules = match resolve_style(&columns(), scope) {
        Ok(rules) => rules,
        Err(e) => {
            return Err(e);
        },
    };
    let paragraph_rules = match resolve_style(&paragraph(), scope) {
        Ok(rules) => rules,
        Err(e) => {
            return Err(e);
        },
    };
    let ghost page = page_elements(heading_rules@, columns_rules@, paragraph_rules@);
    let mut elements: Vec<Element> = Vec::new();
    elements.push(Element { depth: 0, tag: Tag::Div, rules: Vec::new(), text: "" });
    elements.push(Element { depth: 1, tag: Tag::H1, rules: heading_rules, text: HEADING });
    elements.push(Element { depth: 1, tag: Tag::Div, rules: columns_rules, text: "" });
    assert(element_views(elements@) =~= page.take(3));
    let mut i: usize = 0;
    while i < PARAGRAPHS
        invariant
            0 <= i <= PARAGRAPHS,
            page.len() == 3 + PARAGRAPHS,
            page == page_elements(heading_rules@, columns_rules@, paragraph_rules@),
            elements@.len() == 3 + i,
            element_views(elements@) == page.take(3 + i),
        decreases PARAGRAPHS - i,
    {
        elements.push(
            Element { depth: 2, tag: Tag::P, rules: copy_rules(&paragraph_rules), text: PARAGRAPH },
        );
        assert(element_views(elements@) =~= page.take(3 + i + 1));
        i += 1;
    }
    assert(page.take(3 + PARAGRAPHS as int) =~= page);
    Ok(elements)
}

/// What one render pass hands to the renderer: the global rules to apply,
/// in order, and the elements of the page.
#[derive(Debug, PartialEq, Eq)]
pub struct Rendered {
    pub globals: Vec<SelectorRules>,
    pub elements: Vec<Element>,
}

/// `Rendered` as a mathematical value.
pub struct RenderedView {
    pub globals: Seq<SelectorRulesView>,
    pub elements: Seq<ElementView>,
}

impl View for Rendered {
    type V = RenderedView;

    open spec fn view(&self) -> RenderedView {
        RenderedView {
            globals: selector_rules_views(self.globals@),
            elements: element_views(self.elements@),
        }
    }
}

/// One render pass under `themes`: the global styles `globals` of the theme
/// and then those that follow the theme, all resolved, and the page. The
/// first style that does not resolve makes the pass fail with its error.
pub open spec fn rendered(themes: Seq<RegistryView>, globals: Seq<GlobalRuleView>) -> Result<
    RenderedView,
    StyleError,
> {
    match resolved_globals(themes, globals) {
        Err(e) => Err(e),
        Ok(of_theme) => match resolved_globals(themes, themed_styles()) {
            Err(e) => Err(e),
            Ok(themed) => match themed_page(themes) {
                Err(e) => Err(e),
                Ok(elements) => Ok(RenderedView { globals: of_theme + themed, elements }),
            },
        },
    }
}

/// Whether `r` is the executable form of `expected`.
pub open spec fn is_outcome(r: Result<Rendered, StyleError>, expected: Result<
    RenderedView,
    StyleError,
>) -> bool {
    match expected {
        Ok(page) => r is Ok && r->Ok_0@ == page,
        Err(e) => r is Err && r->Err_0 == e,
    }
}

/// Renders the page and its global styles under the themes of `scope`.
pub fn render(model: &Model, scope: &ThemeScope, globals: &Vec<GlobalRule>) -> (r: Result<
    Rendered,
    StyleError,
>)
    ensures
        is_outcome(r, rendered(scope.active(), global_rule_views(globals@))),
{
    let mut of_theme = match resolve_globals(globals, scope) {
        Ok(rules) => rules,
        Err(e) => {
            return Err(e);
        },
    };
    let mut themed = match resolve_globals(&use_themed_styles(), scope) {
        Ok(rules) => rules,
        Err(e) => {
            return Err(e);
        },
    };
    let elements = match themed_view(model, scope) {
        Ok(elements) => elements,
        Err(e) => {
            return Err(e);
        },
    };
    let ghost first = of_theme@;
    let ghost second = themed@;
    of_theme.append(&mut themed);
    assert(selector_rules_views(of_theme@) =~= selector_rules_views(first) + selector_rules_views(
        second,
    ));
    Ok(Rendered { globals: of_theme, elements })
}

/// The styles of the page and all global styles of the application resolve
/// under its theme: every alias they use is one the theme defines.
pub proof fn lemma_page_resolves_under_theme()
    ensures
        rendered(seq![theme_view()], theme_global_styles()) is Ok,
{
    let themes = seq![theme_view()];
    lemma_theme_is_complete();
    assert(defines_all_colors(themes));
    let heading = heading_style();
    assert forall|i: int| 0 <= i < heading.len() implies is_plain(#[trigger] heading[i]) by {
        if i == 0 {
        } else if i == 1 {
        } else if i == 2 {
        } else if i == 3 {
        } else if i == 4 {
        } else if i == 5 {
        } else if i == 6 {
        } else if i == 7 {
        } else if i == 8 {
        } else if i == 9 {
        } else {
            assert(i == 10);
        }
    }
    lemma_plain_style_resolves(themes, heading);
    let columns = columns_style();
    assert forall|i: int| 0 <= i < columns.len() implies is_plain(#[trigger] columns[i]) by {
        if i == 0 {
        } else if i == 1 {
        } else if i == 2 {
        } else if i == 3 {
        } else if i == 4 {
        } else {
            assert(i == 5);
        }
    }
    lemma_plain_style_resolves(themes, columns);
    let paragraph = paragraph_style();
    assert forall|i: int| 0 <= i < paragraph.len() implies is_plain(#[trigger] paragraph[i]) by {
        if i == 0 {
        } else if i == 1 {
        } else if i == 2 {
        } else if i == 3 {
        } else {
            assert(i == 4);
        }
    }
    lemma_plain_style_resolves(themes, paragraph);
    let globals = theme_global_styles();
    assert(all_plain(globals)) by {
        assert forall|i: int, j: int|
            0 <= i < globals.len() && 0 <= j < globals[i].style.len() implies is_plain(
            #[trigger] globals[i].style[j],
        ) by {
            if i == 0 {
                assert(j == 0);
            } else if i == 1 {
                assert(j == 0 || j == 1);
            } else if i == 2 {
                assert(j == 0 || j == 1);
            } else if i == 3 {
                assert(j == 0 || j == 1);
            } else {
                assert(i == 4);
                assert(j == 0 || j == 1);
            }
        }
    }
    lemma_plain_globals_resolve(themes, globals);
    let themed = themed_styles();
    assert(all_plain(themed)) by {
        assert forall|i: int, j: int|
            0 <= i < themed.len() && 0 <= j < themed[i].style.len() implies is_plain(
            #[trigger] themed[i].style[j],
        ) by {
            assert(i == 0 && j == 0);
        }
    }
    lemma_plain_globals_resolve(themes, themed);
}

/// The view of the application: the page with its global styles, rendered
/// with the application's theme active. It cannot fail.
pub fn view(model: &Model) -> (r: Result<Rendered, StyleError>)
    ensures
        r is Ok,
        Ok::<RenderedView, StyleError>(r->Ok_0@) == rendered(
            seq![theme_view()],
            theme_global_styles(),
        ),
{
    let mut themes: Vec<ThemeRegistry> = Vec::new();
    themes.push(theme());
    let root = ThemeScope::root();
    proof {
        lemma_page_resolves_under_theme();
        assert(registry_views(themes@) + Seq::<RegistryView>::empty() =~= seq![theme_view()]);
    }
    let theme_globals = themes[0].global_styles();
    let pass = |scope: &ThemeScope| -> (out: Result<Rendered, StyleError>)
        ensures
            is_outcome(out, rendered(scope.active(), global_rule_views(theme_globals@))),
        { render(model, scope, theme_globals) };
    activate_theme(&root, &themes, pass)
}

} // verus!
