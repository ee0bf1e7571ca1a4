//! Style expressions as they are written at a markup node, before a theme
//! has turned them into concrete rules.

use crate::app_theme::Color;
use crate::values::{ColorValue, Length};
use vstd::prelude::*;

verus! {

/// A family of themed values that are picked by step.
#[derive(Clone, Copy, Debug, PartialEq, Eq, Hash, Structural)]
pub enum ScaleFamily {
    Space,
    Size,
    FontSize,
    BorderWidth,
}

/// The state of an element that a rule is limited to.
#[derive(Clone, Copy, Debug, PartialEq, Eq, Hash, Structural)]
pub enum Pseudo {
    Normal,
    Hover,
    Active,
    Focus,
}

/// The style property that a rule sets.
#[derive(Clone, Copy, Debug, PartialEq, Eq, Hash, Structural)]
pub enum Property {
    Color,
    BackgroundColor,
    BorderColor,
    BorderLeftWidth,
    BorderLeftStyle,
    BorderRadius,
    BoxSizing,
    ColumnCount,
    ColumnWidth,
    FontFamily,
    FontSize,
    FontSmoothing,
    Margin,
    MarginTop,
    MarginRight,
    MarginBottom,
    MarginLeft,
    Padding,
    PaddingTop,
    PaddingRight,
    PaddingBottom,
    PaddingLeft,
}

/// A concrete value of a property.
#[derive(Clone, Copy, Debug, PartialEq, Eq)]
pub enum StyleValue {
    Length(Length),
    Color(ColorValue),
    Number(u32),
    Keyword(&'static str),
}

/// A value as written: concrete, or an alias that the active theme resolves.
#[derive(Clone, Copy, Debug, PartialEq, Eq)]
pub enum StyleTerm {
    Literal(StyleValue),
    ColorAlias(Color),
    ScaleStep(ScaleFamily, usize),
}

/// The term for a concrete length.
pub fn length(value: Length) -> (r: StyleTerm)
    ensures
        r == StyleTerm::Literal(StyleValue::Length(value)),
{
    StyleTerm::Literal(StyleValue::Length(value))
}

/// The term for a concrete color.
pub fn color(value: ColorValue) -> (r: StyleTerm)
    ensures
        r == StyleTerm::Literal(StyleValue::Color(value)),
{
    StyleTerm::Literal(StyleValue::Color(value))
}

/// The term for a plain number.
pub fn number(value: u32) -> (r: StyleTerm)
    ensures
        r == StyleTerm::Literal(StyleValue::Number(value)),
{
    StyleTerm::Literal(StyleValue::Number(value))
}

/// The term for a keyword or another value that is written out.
pub fn keyword(value: &'static str) -> (r: StyleTerm)
    ensures
        r == StyleTerm::Literal(StyleValue::Keyword(value)),
{
    StyleTerm::Literal(StyleValue::Keyword(value))
}

/// The term for the color that the active theme gives to `key`.
pub fn alias(key: Color) -> (r: StyleTerm)
    ensures
        r == StyleTerm::ColorAlias(key),
{
    StyleTerm::ColorAlias(key)
}

/// The term for the value at step `index` of the active theme's scale of
/// `family`.
pub fn scale_step(family: ScaleFamily, index: usize) -> (r: StyleTerm)
    ensures
        r == StyleTerm::ScaleStep(family, index),
{
    StyleTerm::ScaleStep(family, index)
}

/// One value for every viewport, or one value per breakpoint, narrowest
/// first, where the last one given also holds for all wider breakpoints.
#[derive(Debug, PartialEq, Eq)]
pub enum StyleValues {
    Scalar(StyleTerm),
    PerBreakpoint(Vec<StyleTerm>),
}

/// `StyleValues` as a mathematical value.
pub enum ValuesView {
    Scalar(StyleTerm),
    PerBreakpoint(Seq<StyleTerm>),
}

impl View for StyleValues {
    type V = ValuesView;

    open spec fn view(&self) -> ValuesView {
        match self {
            StyleValues::Scalar(term) => ValuesView::Scalar(*term),
            StyleValues::PerBreakpoint(terms) => ValuesView::PerBreakpoint(terms@),
        }
    }
}

/// What one property is set to, with the pseudo-state and the raw media
/// condition that limit it.
#[derive(Debug, PartialEq, Eq)]
pub struct StyleExpression {
    pub property: Property,
    pub values: StyleValues,
    pub pseudo: Pseudo,
    pub media: Option<&'static str>,
}

/// `StyleExpression` as a mathematical value.
pub struct ExpressionView {
    pub property: Property,
    pub values: ValuesView,
    pub pseudo: Pseudo,
    pub media: Option<&'static str>,
}

impl View for StyleExpression {
    type V = ExpressionView;

    open spec fn view(&self) -> ExpressionView {
        ExpressionView {
            property: self.property,
            values: self.values@,
            pseudo: self.pseudo,
            media: self.media,
        }
    }
}

/// The expression that sets `property` to the one value `term` under the
/// limits `pseudo` and `media`.
pub open spec fn scalar(
    property: Property,
    term: StyleTerm,
    pseudo: Pseudo,
    media: Option<&'static str>,
) -> ExpressionView {
    ExpressionView { property, values: ValuesView::Scalar(term), pseudo, media }
}

/// The views of a sequence of expressions, in order.
pub open spec fn expression_views(s: Seq<StyleExpression>) -> Seq<ExpressionView> {
    Seq::new(s.len(), |i: int| s[i]@)
}

/// An ordered list of style expressions for one element. Expressions added
/// after `pseudo`, `hover` or `media` carry that limit.
#[derive(Debug)]
pub struct Style {
    declarations: Vec<StyleExpression>,
    pseudo: Pseudo,
    media: Option<&'static str>,
}

impl View for Style {
    type V = Seq<ExpressionView>;

    closed spec fn view(&self) -> Seq<ExpressionView> {
        expression_views(self.declarations@)
    }
}

impl Style {
    /// The pseudo-state that expressions added next will carry.
    pub closed spec fn current_pseudo(&self) -> Pseudo {
        self.pseudo
    }

    /// The raw media condition that expressions added next will carry.
    pub closed spec fn current_media(&self) -> Option<&'static str> {
        self.media
    }

    /// A style without expressions.
    pub fn new() -> (r: Style)
        ensures
            r@ == Seq::<ExpressionView>::empty(),
            r.current_pseudo() == Pseudo::Normal,
            r.current_media() is None,
    {
        Style { declarations: Vec::new(), pseudo: Pseudo::Normal, media: None }
    }

    /// Limits the expressions added from here on to `pseudo`.
    pub fn pseudo(self, pseudo: Pseudo) -> (r: Style)
        ensures
            r@ == self@,
            r.current_pseudo() == pseudo,
            r.current_media() == self.current_media(),
    {
        Style { declarations: self.declarations, pseudo, media: self.media }
    }

    /// Limits the expressions added from here on to the hovered element.
    pub fn hover(self) -> (r: Style)
        ensures
            r@ == self@,
            r.current_pseudo() == Pseudo::Hover,
            r.current_media() == self.current_media(),
    {
        self.pseudo(Pseudo::Hover)
    }

    /// Limits the expressions added from here on to the raw media condition
    /// `media`.
    pub fn media(self, media: &'static str) -> (r: Style)
        ensures
            r@ == self@,
            r.current_pseudo() == self.current_pseudo(),
            r.current_media() == Some(media),
    {
        Style { declarations: self.declarations, pseudo: self.pseudo, media: Some(media) }
    }

    /// Appends `property` set to `values` under the current limits.
    pub fn with(self, property: Property, values: StyleValues) -> (r: Style)
        ensures
            r@ == self@.push(
                ExpressionView {
                    property,
                    values: values@,
                    pseudo: self.current_pseudo(),
                    media: self.current_media(),
                },
            ),
            r.current_pseudo() == self.current_pseudo(),
            r.current_media() == self.current_media(),
    {
        let mut declarations = self.declarations;
        let ghost before = declarations@;
        declarations.push(
            StyleExpression { property, values, pseudo: self.pseudo, media: self.media },
        );
        assert(expression_views(declarations@) =~= expression_views(before).push(
            declarations@[before.len() as int]@,
        ));
        Style { declarations, pseudo: self.pseudo, media: self.media }
    }

    /// Appends `property` set to the one value `term`.
    pub fn set(self, property: Property, term: StyleTerm) -> (r: Style)
        ensures
            r@ == self@.push(scalar(property, term, self.current_pseudo(), self.current_media())),
            r.current_pseudo() == self.current_pseudo(),
            r.current_media() == self.current_media(),
    {
        self.with(property, StyleValues::Scalar(term))
    }

    /// Appends `property` set to one value per breakpoint.
    pub fn set_each(self, property: Property, terms: Vec<StyleTerm>) -> (r: Style)
        ensures
            r@ == self@.push(
                ExpressionView {
                    property,
                    values: ValuesView::PerBreakpoint(terms@),
                    pseudo: self.current_pseudo(),
                    media: self.current_media(),
                },
            ),
            r.current_pseudo() == self.current_pseudo(),
            r.current_media() == self.current_media(),
    {
        self.with(property, StyleValues::PerBreakpoint(terms))
    }

    /// Appends the left and the right padding, both set to `term`.
    pub fn padding_x(self, term: StyleTerm) -> (r: Style)
        ensures
            r@ == self@.push(
                scalar(Property::PaddingLeft, term, self.current_pseudo(), self.current_media()),
            ).push(
                scalar(Property::PaddingRight, term, self.current_pseudo(), self.current_media()),
            ),
            r.current_pseudo() == self.current_pseudo(),
            r.current_media() == self.current_media(),
    {
        self.set(Property::PaddingLeft, term).set(Property::PaddingRight, term)
    }

    /// Appends the top and the bottom padding, both set to `term`.
    pub fn padding_y(self, term: StyleTerm) -> (r: Style)
        ensures
            r@ == self@.push(
                scalar(Property::PaddingTop, term, self.current_pseudo(), self.current_media()),
            ).push(
                scalar(Property::PaddingBottom, term, self.current_pseudo(), self.current_media()),
            ),
            r.current_pseudo() == self.current_pseudo(),
            r.current_media() == self.current_media(),
    {
        self.set(Property::PaddingTop, term).set(Property::PaddingBottom, term)
    }

    /// Appends the left and the right margin, both set to `term`.
    pub fn margin_x(self, term: StyleTerm) -> (r: Style)
        ensures
            r@ == self@.push(
                scalar(Property::MarginLeft, term, self.current_pseudo(), self.current_media()),
            ).push(
                scalar(Property::MarginRight, term, self.current_pseudo(), self.current_media()),
            ),
            r.current_pseudo() == self.current_pseudo(),
            r.current_media() == self.current_media(),
    {
        self.set(Property::MarginLeft, term).set(Property::MarginRight, term)
    }

    /// Appends the top and the bottom margin, both set to `term`.
    pub fn margin_y(self, term: StyleTerm) -> (r: Style)
        ensures
            r@ == self@.push(
                scalar(Property::MarginTop, term, self.current_pseudo(), self.current_media()),
            ).push(
                scalar(Property::MarginBottom, term, self.current_pseudo(), self.current_media()),
            ),
            r.current_pseudo() == self.current_pseudo(),
            r.current_media() == self.current_media(),
    {
        self.set(Property::MarginTop, term).set(Property::MarginBottom, term)
    }

    /// The number of expressions.
    pub fn len(&self) -> (n: usize)
        ensures
            n == self@.len(),
    {
        self.declarations.len()
    }

    /// The expression at position `index`.
    pub fn get(&self, index: usize) -> (r: Option<&StyleExpression>)
        ensures
            index < self@.len() ==> r is Some && r->0@ == self@[index as int],
            index >= self@.len() ==> r is None,
    {
        if index < self.declarations.len() {
            Some(&self.declarations[index])
        } else {
            None
        }
    }
}

/// A style to start from.
pub fn s() -> (r: Style)
    ensures
        r@ == Seq::<ExpressionView>::empty(),
        r.current_pseudo() == Pseudo::Normal,
        r.current_media() is None,
{
    Style::new()
}

} // verus!
