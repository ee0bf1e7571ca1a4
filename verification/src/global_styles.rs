//! The application's global styles: those that reset the page before any
//! theme is active, and those that depend on the active theme.

use crate::app_theme::{keyword_term, plain, Color};
use crate::registry::{global_rule_views, GlobalRule, GlobalRuleView};
use crate::style::{alias, keyword, s, ExpressionView, Property, StyleTerm};
use vstd::prelude::*;

verus! {

/// The selector of the elements whose fonts are reset.
pub const RESET_ELEMENTS: &'static str = "a,ul,li,div,p,h1,h2,h3,h4,li,dd,dt,button,label,input";

/// The selector of every element with its generated content.
pub const EVERYTHING: &'static str = "*, *:before, *:after";

/// The styles that reset the page.
pub open spec fn init_styles() -> Seq<GlobalRuleView> {
    Seq::<GlobalRuleView>::empty().push(
        GlobalRuleView {
            selector: RESET_ELEMENTS,
            style: Seq::<ExpressionView>::empty().push(
                plain(Property::FontFamily, keyword_term("'Lato',sans-serif")),
            ).push(plain(Property::FontSmoothing, keyword_term("antialiased"))),
        },
    ).push(
        GlobalRuleView {
            selector: "img",
            style: Seq::<ExpressionView>::empty().push(
                plain(Property::BoxSizing, keyword_term("content-box")),
            ),
        },
    ).push(
        GlobalRuleView {
            selector: EVERYTHING,
            style: Seq::<ExpressionView>::empty().push(
                plain(Property::BoxSizing, keyword_term("inherit")),
            ),
        },
    )
}

/// The styles that follow the active theme: the page takes the theme's
/// background color.
pub open spec fn themed_styles() -> Seq<GlobalRuleView> {
    Seq::<GlobalRuleView>::empty().push(
        GlobalRuleView {
            selector: "body",
            style: Seq::<ExpressionView>::empty().push(
                plain(Property::BackgroundColor, StyleTerm::ColorAlias(Color::Background)),
            ),
        },
    )
}

/// The global styles to apply once, when the application starts. They hold
/// no alias, so they resolve without a theme.
pub fn global_init() -> (r: Vec<GlobalRule>)
    ensures
        global_rule_views(r@) == init_styles(),
{
    let mut rules: Vec<GlobalRule> = Vec::new();
    rules.push(
        GlobalRule {
            selector: RESET_ELEMENTS,
            style: s().set(Property::FontFamily, keyword("'Lato',sans-serif")).set(
                Property::FontSmoothing,
                keyword("antialiased"),
            ),
        },
    );
    rules.push(
        GlobalRule { selector: "img", style: s().set(Property::BoxSizing, keyword("content-box")) },
    );
    rules.push(
        GlobalRule { selector: EVERYTHING, style: s().set(Property::BoxSizing, keyword("inherit")) },
    );
    assert(global_rule_views(rules@) =~= init_styles());
    rules
}

/// The global styles to apply in every render pass, under the themes that
/// are active in it.
pub fn use_themed_styles() -> (r: Vec<GlobalRule>)
    ensures
        global_rule_views(r@) == themed_styles(),
{
    let mut rules: Vec<GlobalRule> = Vec::new();
    rules.push(
        GlobalRule {
            selector: "body",
            style: s().set(Property::BackgroundColor, alias(Color::Background)),
        },
    );
    assert(global_rule_views(rules@) =~= themed_styles());
    rules
}

} // verus!
